//! The detector: learns how devices behave and judges what deviates.
use dashmap::DashMap;
use vstd::prelude::*;

use crate::antiflood::{bump, ip_type, ip_type_of, next_count};
use crate::clock::{WallClock, MILLIS_PATTERN, SECONDS_PATTERN};
use crate::dash::{
    behavior_entries, behaviors_by_ip, drop_intel, get_behavior, get_samples, intel_by_id,
    intel_count, intel_entries, new_behaviors, new_intel, new_samples, retain_samples,
    sample_counts, samples_by_ip, set_behavior, set_intel, set_samples,
};
use crate::kayoli::{
    all_matches, at_most, has_port, law_remarks_and_risk_agree, total_risk, KayoliModel,
    KayoliTrainer, MASS_SCAN_THRESHOLD,
};
use crate::order::{are_smallest, smallest};
use crate::tally::{
    lemma_count, lemma_count_insert, lemma_sum, lemma_sum_insert, list_count, list_sum, lists,
    map_count, map_sum,
};
use crate::text::{
    copy_texts, dec, decimal, is_empty_text, push_text, same_text, views, wide_decimal, with_number,
};
use crate::training::{
    behavior_of, copy_behavior, copy_intel, copy_sample, input_of, learn_behavior,
    lemma_filter_contains, measure, sample_views, samples_retained, trim_samples, trimmed_samples, BehaviorInput, BehaviorModel,
    DeviceBehavior, IntelModel, IntelligenceLog, SampleModel, TrainingSample, MAX_SAMPLES_PER_IP,
    MIN_SAMPLES_FOR_BEHAVIOR,
};
use crate::words::{join_texts, joined, list_text, list_to_text, widen, widened};

verus! {

/// A behaviour counts from more appearances than this.
pub const BEHAVIOR_MIN_APPEARANCES: u32 = 10;

/// From this score on a device is a high risk.
pub const HIGH_RISK_THRESHOLD: u8 = 60;

/// The most findings that are kept.
pub const MAX_INTEL_LOGS: usize = 10000;

/// The most points that the learning curve holds.
pub const MAX_CURVE_POINTS: usize = 10000;

/// How many points go when there are too many.
pub const CURVE_TRIM: usize = 1000;

/// A point of the learning curve.
#[derive(Debug, Clone)]
pub struct LearningPoint {
    pub timestamp: String,
    pub devices_learned: usize,
    pub total_samples: u128,
    pub ipv4_count: usize,
    pub ipv6_count: usize,
}

/// What a point of the learning curve says.
pub ghost struct PointModel {
    pub timestamp: Seq<char>,
    pub devices_learned: nat,
    pub total_samples: nat,
    pub ipv4_count: nat,
    pub ipv6_count: nat,
}

impl View for LearningPoint {
    type V = PointModel;

    open spec fn view(&self) -> PointModel {
        PointModel {
            timestamp: self.timestamp@,
            devices_learned: self.devices_learned as nat,
            total_samples: self.total_samples as nat,
            ipv4_count: self.ipv4_count as nat,
            ipv6_count: self.ipv6_count as nat,
        }
    }
}

/// What the points of the learning curve say.
pub open spec fn point_views(s: Seq<LearningPoint>) -> Seq<PointModel> {
    s.map_values(|p: LearningPoint| p@)
}

/// What the detector knows.
pub ghost struct DetectorModel {
    pub samples: Map<Seq<char>, Seq<SampleModel>>,
    pub behaviors: Map<Seq<char>, BehaviorModel>,
    pub intel: Map<u64, IntelModel>,
    pub intel_counter: u64,
    pub kayoli: KayoliModel,
    pub curve: Seq<PointModel>,
}

/// Learns how devices behave and judges what deviates.
pub struct AIDetector {
    training_data: DashMap<String, Vec<TrainingSample>>,
    device_behaviors: DashMap<String, DeviceBehavior>,
    intel_logs: DashMap<u64, IntelligenceLog>,
    intel_log_counter: u64,
    kayoli: KayoliTrainer,
    learning_curve: Vec<LearningPoint>,
}

impl View for AIDetector {
    type V = DetectorModel;

    closed spec fn view(&self) -> DetectorModel {
        DetectorModel {
            samples: samples_by_ip(self.training_data),
            behaviors: behaviors_by_ip(self.device_behaviors),
            intel: intel_by_id(self.intel_logs),
            intel_counter: self.intel_log_counter,
            kayoli: self.kayoli@,
            curve: point_views(self.learning_curve@),
        }
    }
}

// ---------------------------------------------------------------------------
// Loading
// ---------------------------------------------------------------------------

/// The samples of an address, none if it is not on record.
pub open spec fn samples_of(m: Map<Seq<char>, Seq<SampleModel>>, ip: Seq<char>) -> Seq<
    SampleModel,
> {
    if m.contains_key(ip) {
        m[ip]
    } else {
        Seq::<SampleModel>::empty()
    }
}

/// The protocol on record, or the one that the address shows where none is.
pub open spec fn filled_type(ip_type: Seq<char>, ip: Seq<char>) -> Seq<char> {
    if ip_type.len() == 0 {
        ip_type_of(ip)
    } else {
        ip_type
    }
}

/// A sample with its protocol.
pub open spec fn filled_sample(s: SampleModel) -> SampleModel {
    SampleModel { ip_type: filled_type(s.ip_type, s.ip), ..s }
}

/// A behaviour with its protocol.
pub open spec fn filled_behavior(b: BehaviorModel) -> BehaviorModel {
    BehaviorModel { ip_type: filled_type(b.ip_type, b.ip), ..b }
}

/// The samples of a list by address.
pub open spec fn samples_loaded(s: Seq<SampleModel>) -> Map<Seq<char>, Seq<SampleModel>>
    decreases s.len(),
{
    if s.len() == 0 {
        Map::empty()
    } else {
        let m = samples_loaded(s.drop_last());
        let last = filled_sample(s.last());
        m.insert(last.ip, samples_of(m, last.ip).push(last))
    }
}

/// The behaviours of a list by address.
pub open spec fn behaviors_loaded(b: Seq<BehaviorModel>) -> Map<Seq<char>, BehaviorModel>
    decreases b.len(),
{
    if b.len() == 0 {
        Map::empty()
    } else {
        let last = filled_behavior(b.last());
        behaviors_loaded(b.drop_last()).insert(last.ip, last)
    }
}

/// What a list of behaviours says.
pub open spec fn behavior_views(b: Seq<DeviceBehavior>) -> Seq<BehaviorModel> {
    b.map_values(|x: DeviceBehavior| x@)
}

/// Adds a sample to those of its address.
fn add_sample(m: &mut DashMap<String, Vec<TrainingSample>>, sample: TrainingSample, trim: bool)
    ensures
        ({
            let ip = sample@.ip;
            let longer = samples_of(samples_by_ip(*old(m)), ip).push(sample@);
            samples_by_ip(*final(m)) == samples_by_ip(*old(m)).insert(
                ip,
                if trim {
                    trimmed_samples(longer)
                } else {
                    longer
                },
            )
        }),
{
    let ip = sample.ip.as_str().to_owned();
    let ghost model = sample@;
    let mut samples = match get_samples(m, ip.as_str()) {
        Some(v) => v,
        None => Vec::new(),
    };
    let ghost before = samples@;
    assert(sample_views(before) =~= samples_of(samples_by_ip(*m), ip@));
    samples.push(sample);
    assert(sample_views(samples@) =~= sample_views(before).push(model));
    if trim {
        trim_samples(&mut samples);
    }
    set_samples(m, ip, samples);
}

impl AIDetector {
    /// A detector that starts from saved samples and behaviours.
    pub fn new(
        kayoli: KayoliTrainer,
        samples: Vec<TrainingSample>,
        behaviors: Vec<DeviceBehavior>,
    ) -> (r: Self)
        ensures
            r@ == (DetectorModel {
                samples: samples_loaded(sample_views(samples@)),
                behaviors: behaviors_loaded(behavior_views(behaviors@)),
                intel: Map::empty(),
                intel_counter: 0,
                kayoli: kayoli@,
                curve: Seq::empty(),
            }),
    {
        let mut training_data = new_samples();
        let ghost all = sample_views(samples@);
        let mut i: usize = 0;
        assert(all.take(0) =~= Seq::<SampleModel>::empty());
        assert(samples_by_ip(training_data) =~= samples_loaded(all.take(0)));
        while i < samples.len()
            invariant
                i <= samples.len(),
                all == sample_views(samples@),
                samples_by_ip(training_data) == samples_loaded(all.take(i as int)),
            decreases samples.len() - i,
        {
            proof {
                assert(all.take(i + 1).drop_last() =~= all.take(i as int));
                assert(all[i as int] == samples@[i as int]@);
            }
            let mut sample = copy_sample(&samples[i]);
            if is_empty_text(sample.ip_type.as_str()) {
                sample.ip_type = ip_type(sample.ip.as_str());
            }
            add_sample(&mut training_data, sample, false);
            i += 1;
        }
        assert(all.take(i as int) =~= all);
        let mut device_behaviors = new_behaviors();
        let ghost known = behavior_views(behaviors@);
        let mut j: usize = 0;
        assert(known.take(0) =~= Seq::<BehaviorModel>::empty());
        assert(behaviors_by_ip(device_behaviors) =~= behaviors_loaded(known.take(0)));
        while j < behaviors.len()
            invariant
                j <= behaviors.len(),
                known == behavior_views(behaviors@),
                behaviors_by_ip(device_behaviors) == behaviors_loaded(known.take(j as int)),
            decreases behaviors.len() - j,
        {
            proof {
                assert(known.take(j + 1).drop_last() =~= known.take(j as int));
                assert(known[j as int] == behaviors@[j as int]@);
            }
            let mut b = copy_behavior(&behaviors[j]);
            if is_empty_text(b.ip_type.as_str()) {
                b.ip_type = ip_type(b.ip.as_str());
            }
            set_behavior(&mut device_behaviors, b.ip.as_str().to_owned(), b);
            j += 1;
        }
        assert(known.take(j as int) =~= known);
        let r = AIDetector {
            training_data,
            device_behaviors,
            intel_logs: new_intel(),
            intel_log_counter: 0,
            kayoli,
            learning_curve: Vec::new(),
        };
        assert(r@.intel =~= Map::empty());
        assert(r@.curve =~= Seq::empty());
        r
    }
}

// ---------------------------------------------------------------------------
// Learning
// ---------------------------------------------------------------------------

/// The detector after a scan of a device.
pub open spec fn sample_collected(
    m: DetectorModel,
    ip: Seq<char>,
    hour: u32,
    day: u32,
    ports: Seq<u16>,
    clock: WallClock,
) -> DetectorModel {
    let sample = SampleModel {
        timestamp: clock.text(MILLIS_PATTERN@),
        ip,
        ip_type: ip_type_of(ip),
        hour,
        day_of_week: day,
        open_ports: ports,
    };
    DetectorModel {
        samples: m.samples.insert(ip, trimmed_samples(samples_of(m.samples, ip).push(sample))),
        ..m
    }
}

/// Whether there are enough samples of an address to learn from.
pub open spec fn learnable(m: DetectorModel, ip: Seq<char>) -> bool {
    m.samples.contains_key(ip) && m.samples[ip].len() >= MIN_SAMPLES_FOR_BEHAVIOR
}

/// The detector after the behaviour of an address was learnt.
pub open spec fn behavior_updated(
    m: DetectorModel,
    ip: Seq<char>,
    threshold: u32,
    avg_interval: u64,
) -> DetectorModel {
    if learnable(m, ip) {
        DetectorModel {
            behaviors: m.behaviors.insert(
                ip,
                behavior_of(ip, m.samples[ip], threshold, avg_interval),
            ),
            ..m
        }
    } else {
        m
    }
}

impl AIDetector {
    /// Notes what a scan found on a device.
    pub fn collect_sample(
        &mut self,
        ip: &str,
        hour: u32,
        day: u32,
        ports: Vec<u16>,
        clock: &WallClock,
    )
        requires
            clock.wf(),
        ensures
            final(self)@ == sample_collected(old(self)@, ip@, hour, day, ports@, *clock),
    {
        let sample = TrainingSample {
            timestamp: clock.format(MILLIS_PATTERN),
            ip: ip.to_owned(),
            ip_type: ip_type(ip),
            hour,
            day_of_week: day,
            open_ports: ports,
        };
        add_sample(&mut self.training_data, sample, true);
    }

    /// What the behaviour of an address is to be learnt from; nothing while there are too
    /// few samples.
    pub fn behavior_input(&self, ip: &str) -> (r: Option<BehaviorInput>)
        ensures
            r is Some <==> learnable(self@, ip@),
            r matches Some(i) ==> input_of(i, self@.samples[ip@]),
    {
        match get_samples(&self.training_data, ip) {
            Some(v) => {
                assert(sample_views(v@).len() == v@.len());
                if v.len() >= MIN_SAMPLES_FOR_BEHAVIOR {
                    Some(measure(&v))
                } else {
                    None
                }
            },
            None => None,
        }
    }

    /// Learns the behaviour of an address from its samples, where there are enough. What
    /// occurs in at least `threshold` of them is typical.
    pub fn update_behavior(&mut self, ip: &str, threshold: u32, avg_interval: u64)
        ensures
            final(self)@ == behavior_updated(old(self)@, ip@, threshold, avg_interval),
    {
        if let Some(v) = get_samples(&self.training_data, ip) {
            assert(sample_views(v@).len() == v@.len());
            if v.len() >= MIN_SAMPLES_FOR_BEHAVIOR {
                let b = learn_behavior(ip, &v, threshold, avg_interval);
                set_behavior(&mut self.device_behaviors, ip.to_owned(), b);
            }
        }
    }
    /// The behaviour that is known of an address.
    pub fn behavior(&self, ip: &str) -> (r: Option<DeviceBehavior>)
        ensures
            match r {
                Some(b) => self@.behaviors.contains_key(ip@) && b@ == self@.behaviors[ip@],
                None => !self@.behaviors.contains_key(ip@),
            },
    {
        get_behavior(&self.device_behaviors, ip)
    }
}

// ---------------------------------------------------------------------------
// Judging
// ---------------------------------------------------------------------------

/// Whether a device with a known behaviour is active at an unusual hour.
pub open spec fn unusual_time(b: BehaviorModel, hour: u32) -> bool {
    b.typical_hours.len() > 0 && !b.typical_hours.contains(hour) && b.appearance_count
        > BEHAVIOR_MIN_APPEARANCES
}

/// The open ports that a device with a known behaviour does not usually have.
pub open spec fn unusual_ports(b: BehaviorModel, ports: Seq<u16>) -> Seq<u16> {
    if ports.len() > 0 && b.typical_ports.len() > 0 {
        ports.filter(|p: u16| !b.typical_ports.contains(p))
    } else {
        Seq::<u16>::empty()
    }
}

/// What speaks for an anomaly.
pub ghost struct EvidenceModel {
    pub kayoli_risk: nat,
    pub kayoli_matches: nat,
    pub unusual_time: bool,
    pub unusual_ports: nat,
    pub few_samples: bool,
    pub anomalies: Seq<Seq<char>>,
}

/// The remark on an unusual hour.
pub open spec fn time_remark(hour: u32, typical: Seq<u32>) -> Seq<char> {
    "Необычное время: "@ + dec(hour as nat) + "ч (обычно "@ + list_text(typical) + "ч)"@
}

/// The remark on unusual ports.
pub open spec fn ports_remark(ports: Seq<u16>) -> Seq<char> {
    "Необычные порты: "@ + list_text(widened(ports))
}

/// What speaks for an anomaly of a device.
pub open spec fn evidence_of(
    m: DetectorModel,
    ip: Seq<char>,
    hour: u32,
    ports: Seq<u16>,
) -> EvidenceModel {
    let risk = at_most(total_risk(m.kayoli.attack, hour, ports), 100);
    let matches = all_matches(m.kayoli.attack, hour, ports);
    let found = if risk > 0 {
        matches
    } else {
        Seq::<Seq<char>>::empty()
    };
    if m.behaviors.contains_key(ip) {
        let b = m.behaviors[ip];
        let late = unusual_time(b, hour);
        let odd = unusual_ports(b, ports);
        EvidenceModel {
            kayoli_risk: risk,
            kayoli_matches: matches.len(),
            unusual_time: late,
            unusual_ports: odd.len(),
            few_samples: b.appearance_count < MIN_SAMPLES_FOR_BEHAVIOR,
            anomalies: found + (if late {
                seq![time_remark(hour, b.typical_hours)]
            } else {
                seq![]
            }) + (if odd.len() > 0 {
                seq![ports_remark(odd)]
            } else {
                seq![]
            }),
        }
    } else {
        EvidenceModel {
            kayoli_risk: risk,
            kayoli_matches: matches.len(),
            unusual_time: false,
            unusual_ports: 0,
            few_samples: false,
            anomalies: found,
        }
    }
}

/// What speaks for an anomaly.
#[derive(Debug, Clone)]
pub struct AnomalyEvidence {
    /// The risk that the patterns add up to, at most 100.
    pub kayoli_risk: u8,
    /// How many remarks the patterns made.
    pub kayoli_matches: usize,
    /// Whether the device is active at an unusual hour.
    pub unusual_time: bool,
    /// How many of the open ports are unusual.
    pub unusual_ports: usize,
    /// Whether the behaviour rests on few samples.
    pub few_samples: bool,
    /// The remarks.
    pub anomalies: Vec<String>,
}

impl View for AnomalyEvidence {
    type V = EvidenceModel;

    open spec fn view(&self) -> EvidenceModel {
        EvidenceModel {
            kayoli_risk: self.kayoli_risk as nat,
            kayoli_matches: self.kayoli_matches as nat,
            unusual_time: self.unusual_time,
            unusual_ports: self.unusual_ports as nat,
            few_samples: self.few_samples,
            anomalies: views(self.anomalies@),
        }
    }
}

/// Whether the hour is in the list.
fn has_hour(hours: &Vec<u32>, hour: u32) -> (r: bool)
    ensures
        r == hours@.contains(hour),
{
    let mut i: usize = 0;
    while i < hours.len()
        invariant
            i <= hours.len(),
            forall|j: int| 0 <= j < i ==> hours@[j] != hour,
        decreases hours.len() - i,
    {
        if hours[i] == hour {
            return true;
        }
        i += 1;
    }
    false
}

/// The open ports that a device does not usually have.
fn unusual_of(b: &DeviceBehavior, ports: &Vec<u16>) -> (r: Vec<u16>)
    ensures
        r@ == unusual_ports(b@, ports@),
{
    let mut out: Vec<u16> = Vec::new();
    if ports.len() == 0 || b.typical_ports.len() == 0 {
        return out;
    }
    let ghost p = |x: u16| !b@.typical_ports.contains(x);
    let mut i: usize = 0;
    proof {
        reveal(Seq::filter);
        assert(out@ =~= ports@.take(0).filter(p));
    }
    while i < ports.len()
        invariant
            i <= ports.len(),
            p == |x: u16| !b@.typical_ports.contains(x),
            out@ == ports@.take(i as int).filter(p),
        decreases ports.len() - i,
    {
        proof {
            reveal(Seq::filter);
            assert(ports@.take(i + 1).drop_last() =~= ports@.take(i as int));
        }
        if !has_port(&b.typical_ports, ports[i]) {
            out.push(ports[i]);
        }
        i += 1;
    }
    assert(ports@.take(i as int) =~= ports@);
    out
}

/// Whether one of the ports is dangerous to leave open.
pub open spec fn has_open_danger(ports: Seq<u16>) -> bool {
    ports.contains(22) || ports.contains(23) || ports.contains(445) || ports.contains(3389)
        || ports.contains(5900)
}

/// What an anomaly adds to the judgement of a device: points of risk, and remarks.
#[derive(Debug, Clone)]
pub struct Anomaly {
    pub points: u32,
    pub remarks: Vec<String>,
}

/// The remark on many open ports.
pub open spec fn mass_remark(n: nat) -> Seq<char> {
    "Массовое сканирование ("@ + dec(n) + " портов)"@
}

/// The risk of a device, at most 100.
pub open spec fn risk_score(anomaly: Option<Anomaly>, ports: Seq<u16>) -> nat {
    at_most(
        (match anomaly {
            Some(a) => a.points as nat,
            None => 0nat,
        }) + (if has_open_danger(ports) {
            20nat
        } else {
            0nat
        }) + (if ports.len() > MASS_SCAN_THRESHOLD {
            15nat
        } else {
            0nat
        }),
        100,
    )
}

/// The remarks on a device.
pub open spec fn activities(anomaly: Option<Anomaly>, ports: Seq<u16>) -> Seq<Seq<char>> {
    (match anomaly {
        Some(a) => views(a.remarks@),
        None => Seq::<Seq<char>>::empty(),
    }) + (if has_open_danger(ports) {
        seq!["Опасный порт обнаружен"@]
    } else {
        seq![]
    }) + (if ports.len() > MASS_SCAN_THRESHOLD {
        seq![mass_remark(ports.len())]
    } else {
        seq![]
    })
}

/// What is to be done about a score.
pub open spec fn status_of(score: nat) -> Seq<char> {
    if score >= 70 {
        "investigating"@
    } else if score >= 40 {
        "monitoring"@
    } else {
        "low_risk"@
    }
}

/// What a stranger's device looks like.
#[derive(Debug, Clone)]
pub struct HackerProfile {
    pub ip: String,
    pub ip_type: String,
    pub mac: Option<String>,
    pub first_seen: String,
    pub last_seen: String,
    pub attack_count: u32,
    pub scanned_ports: Vec<u16>,
    pub suspicious_activities: Vec<String>,
    pub risk_score: u8,
    pub status: String,
    pub warning_count: u32,
    pub recent_events: Vec<String>,
}

/// What a profile says.
pub ghost struct ProfileModel {
    pub ip: Seq<char>,
    pub ip_type: Seq<char>,
    pub mac: Option<Seq<char>>,
    pub first_seen: Seq<char>,
    pub last_seen: Seq<char>,
    pub attack_count: u32,
    pub scanned_ports: Seq<u16>,
    pub suspicious_activities: Seq<Seq<char>>,
    pub risk_score: nat,
    pub status: Seq<char>,
    pub warning_count: u32,
    pub recent_events: Seq<Seq<char>>,
}

impl View for HackerProfile {
    type V = ProfileModel;

    open spec fn view(&self) -> ProfileModel {
        ProfileModel {
            ip: self.ip@,
            ip_type: self.ip_type@,
            mac: match self.mac {
                Some(t) => Some(t@),
                None => None,
            },
            first_seen: self.first_seen@,
            last_seen: self.last_seen@,
            attack_count: self.attack_count,
            scanned_ports: self.scanned_ports@,
            suspicious_activities: views(self.suspicious_activities@),
            risk_score: self.risk_score as nat,
            status: self.status@,
            warning_count: self.warning_count,
            recent_events: views(self.recent_events@),
        }
    }
}

/// The profile of a device.
pub open spec fn profile_of(
    ip: Seq<char>,
    ports: Seq<u16>,
    anomaly: Option<Anomaly>,
    mac: Option<String>,
    clock: WallClock,
) -> ProfileModel {
    let score = risk_score(anomaly, ports);
    ProfileModel {
        ip,
        ip_type: ip_type_of(ip),
        mac: match mac {
            Some(t) => Some(t@),
            None => None,
        },
        first_seen: clock.text(SECONDS_PATTERN@),
        last_seen: clock.text(SECONDS_PATTERN@),
        attack_count: 1,
        scanned_ports: ports,
        suspicious_activities: activities(anomaly, ports),
        risk_score: score,
        status: status_of(score),
        warning_count: if score >= HIGH_RISK_THRESHOLD {
            1u32
        } else {
            0u32
        },
        recent_events: Seq::empty(),
    }
}

/// The detector after a finding was put on record.
pub open spec fn intel_saved(
    m: DetectorModel,
    ip: Seq<char>,
    event_type: Seq<char>,
    details: Seq<char>,
    risk_level: u8,
    source: Seq<char>,
    clock: WallClock,
) -> DetectorModel {
    DetectorModel {
        intel: m.intel.insert(
            m.intel_counter,
            IntelModel {
                timestamp: clock.text(MILLIS_PATTERN@),
                ip,
                ip_type: ip_type_of(ip),
                event_type,
                details,
                risk_level,
                source,
            },
        ),
        intel_counter: bump(m.intel_counter),
        ..m
    }
}

/// The details of the finding that a device is a high risk.
pub open spec fn risk_details(score: nat, remarks: Seq<Seq<char>>) -> Seq<char> {
    dec(score) + "% - "@ + joined(remarks, ", "@)
}

/// The detector after a device was judged: a high risk is put on record.
pub open spec fn device_analyzed(
    m: DetectorModel,
    ip: Seq<char>,
    ports: Seq<u16>,
    anomaly: Option<Anomaly>,
    clock: WallClock,
) -> DetectorModel {
    let score = risk_score(anomaly, ports);
    if score >= HIGH_RISK_THRESHOLD {
        intel_saved(
            m,
            ip,
            "high_risk"@,
            risk_details(score, activities(anomaly, ports)),
            score as u8,
            "AI"@,
            clock,
        )
    } else {
        m
    }
}

/// What the evidence adds to the judgement of a device: nothing unless it is `over` the
/// threshold, and else points of risk, and its remarks.
pub fn anomaly_of(evidence: AnomalyEvidence, over: bool, points: u32) -> (r: Option<Anomaly>)
    ensures
        over ==> r is Some && r->0.points == points && views(r->0.remarks@)
            == evidence@.anomalies,
        !over ==> r is None,
{
    if over {
        Some(Anomaly { points, remarks: evidence.anomalies })
    } else {
        None
    }
}

impl AIDetector {
    /// What speaks for an anomaly of a device with the given open ports at the given
    /// hour.
    pub fn detect_anomaly(&self, ip: &str, hour: u32, ports: &Vec<u16>) -> (r: AnomalyEvidence)
        ensures
            r@ == evidence_of(self@, ip@, hour, ports@),
    {
        let (kayoli_risk, found) = self.kayoli.detect(hour, ports);
        let kayoli_matches: usize = found.len();
        let ghost matches = views(found@);
        assert(matches.len() == found@.len());
        let mut anomalies: Vec<String> = if kayoli_risk > 0 {
            found
        } else {
            Vec::new()
        };
        let ghost first = views(anomalies@);
        assert(kayoli_risk == 0 ==> first =~= Seq::empty());
        match get_behavior(&self.device_behaviors, ip) {
            Some(b) => {
                let late = b.typical_hours.len() > 0 && !has_hour(&b.typical_hours, hour)
                    && b.appearance_count > BEHAVIOR_MIN_APPEARANCES;
                if late {
                    let mut s = with_number("Необычное время: ", hour as u64);
                    s.append("ч (обычно ");
                    s.append(list_to_text(&b.typical_hours).as_str());
                    s.append("ч)");
                    push_text(&mut anomalies, s);
                }
                let odd = unusual_of(&b, ports);
                if odd.len() > 0 {
                    let mut s = "Необычные порты: ".to_owned();
                    s.append(list_to_text(&widen(&odd)).as_str());
                    push_text(&mut anomalies, s);
                }
                let few_samples = b.appearance_count < MIN_SAMPLES_FOR_BEHAVIOR as u32;
                let r = AnomalyEvidence {
                    kayoli_risk,
                    kayoli_matches,
                    unusual_time: late,
                    unusual_ports: odd.len(),
                    few_samples,
                    anomalies,
                };
                assert(r@.anomalies =~= evidence_of(self@, ip@, hour, ports@).anomalies);
                r
            },
            None => AnomalyEvidence {
                kayoli_risk,
                kayoli_matches,
                unusual_time: false,
                unusual_ports: 0,
                few_samples: false,
                anomalies,
            },
        }
    }

    /// Judges a device. A high risk is put on record.
    pub fn analyze_device(
        &mut self,
        ip: &str,
        scanned_ports: Vec<u16>,
        anomaly: Option<Anomaly>,
        mac: Option<String>,
        clock: &WallClock,
    ) -> (r: HackerProfile)
        requires
            clock.wf(),
        ensures
            r@ == profile_of(ip@, scanned_ports@, anomaly, mac, *clock),
            final(self)@ == device_analyzed(old(self)@, ip@, scanned_ports@, anomaly, *clock),
    {
        let mut risk: u32 = 0;
        let mut remarks: Vec<String> = Vec::new();
        assert(views(remarks@) =~= Seq::<Seq<char>>::empty());
        if let Some(a) = &anomaly {
            risk = if a.points < 100 {
                a.points
            } else {
                100
            };
            remarks = copy_texts(&a.remarks);
        }
        if has_port(&scanned_ports, 22) || has_port(&scanned_ports, 23) || has_port(
            &scanned_ports,
            445,
        ) || has_port(&scanned_ports, 3389) || has_port(&scanned_ports, 5900) {
            risk += 20;
            push_text(&mut remarks, "Опасный порт обнаружен".to_owned());
        }
        if scanned_ports.len() > MASS_SCAN_THRESHOLD {
            risk += 15;
            let mut s = with_number("Массовое сканирование (", scanned_ports.len() as u64);
            s.append(" портов)");
            push_text(&mut remarks, s);
        }
        assert(views(remarks@) =~= activities(anomaly, scanned_ports@));
        let score: u8 = if risk < 100 {
            risk as u8
        } else {
            100
        };
        assert(score == risk_score(anomaly, scanned_ports@));
        let status = if score >= 70 {
            "investigating"
        } else if score >= 40 {
            "monitoring"
        } else {
            "low_risk"
        };
        let mut warnings: u32 = 0;
        if score >= HIGH_RISK_THRESHOLD {
            warnings = 1;
            let mut details = decimal(score as u64);
            details.append("% - ");
            details.append(join_texts(&remarks, ", ").as_str());
            self.save_intel_event(ip, "high_risk", details.as_str(), score, "AI", clock);
        }
        let seen = clock.format(SECONDS_PATTERN);
        let r = HackerProfile {
            ip: ip.to_owned(),
            ip_type: ip_type(ip),
            mac,
            first_seen: seen.as_str().to_owned(),
            last_seen: seen,
            attack_count: 1,
            scanned_ports,
            suspicious_activities: remarks,
            risk_score: score,
            status: status.to_owned(),
            warning_count: warnings,
            recent_events: Vec::new(),
        };
        assert(r@.recent_events =~= Seq::empty());
        r
    }

    /// Puts a finding on record.
    pub fn save_intel_event(
        &mut self,
        ip: &str,
        event_type: &str,
        details: &str,
        risk_level: u8,
        source: &str,
        clock: &WallClock,
    )
        requires
            clock.wf(),
        ensures
            final(self)@ == intel_saved(
                old(self)@,
                ip@,
                event_type@,
                details@,
                risk_level,
                source@,
                *clock,
            ),
    {
        let log = IntelligenceLog {
            timestamp: clock.format(MILLIS_PATTERN),
            ip: ip.to_owned(),
            ip_type: ip_type(ip),
            event_type: event_type.to_owned(),
            details: details.to_owned(),
            risk_level,
            source: source.to_owned(),
        };
        let id: u64 = self.intel_log_counter;
        self.intel_log_counter = next_count(id);
        set_intel(&mut self.intel_logs, id, log);
    }
}

// ---------------------------------------------------------------------------
// Cleanup, statistics, saving
// ---------------------------------------------------------------------------

/// Whether `kept` are the `n` findings of `all` with the largest numbers.
pub open spec fn latest_intel(
    all: Map<u64, IntelModel>,
    kept: Map<u64, IntelModel>,
    n: nat,
) -> bool {
    &&& kept.dom().len() == n
    &&& forall|k: u64| #[trigger]
        kept.contains_key(k) ==> all.contains_key(k) && kept[k] == all[k]
    &&& forall|a: u64, b: u64| #[trigger]
        kept.contains_key(a) && #[trigger] all.contains_key(b) && !kept.contains_key(b) ==> b < a
}

/// What a cleanup does: old samples go, and of the findings only the latest are kept.
pub open spec fn data_cleaned(
    before: DetectorModel,
    after: DetectorModel,
    clock: WallClock,
) -> bool {
    &&& after == (DetectorModel {
        samples: samples_retained(before.samples, clock),
        intel: after.intel,
        ..before
    })
    &&& if before.intel.dom().len() <= MAX_INTEL_LOGS {
        after.intel == before.intel
    } else {
        latest_intel(before.intel, after.intel, MAX_INTEL_LOGS as nat)
    }
}

/// Drops the findings with the smallest numbers until no more than the limit are left.
fn keep_latest_intel(m: &mut DashMap<u64, IntelligenceLog>)
    requires
        intel_by_id(*old(m)).dom().len() > MAX_INTEL_LOGS,
    ensures
        latest_intel(intel_by_id(*old(m)), intel_by_id(*final(m)), MAX_INTEL_LOGS as nat),
{
    let ghost all = intel_by_id(*m);
    let entries = intel_entries(m);
    let mut ids: Vec<u64> = Vec::new();
    let mut i: usize = 0;
    while i < entries.len()
        invariant
            i <= entries.len(),
            ids.len() == i,
            forall|k: int| 0 <= k < i ==> #[trigger] ids@[k] == entries@[k].0,
        decreases entries.len() - i,
    {
        ids.push(entries[i].0);
        i += 1;
    }
    proof {
        assert(ids@.no_duplicates());
        ids@.unique_seq_to_set();
        assert forall|k: u64| ids@.to_set().contains(k) <==> all.dom().contains(k) by {
            if all.contains_key(k) {
                let j = choose|j: int| 0 <= j < entries@.len() && (#[trigger] entries@[j]).0 == k;
                assert(ids@[j] == k);
            }
            if ids@.contains(k) {
                let j = ids@.index_of(k);
                assert(all.contains_key(entries@[j].0));
            }
        }
        assert(ids@.to_set() =~= all.dom());
    }
    let count: usize = ids.len() - MAX_INTEL_LOGS;
    let oldest = smallest(&ids, count);
    let mut k: usize = 0;
    let ghost mut gone: Set<u64> = Set::empty();
    assert(all.remove_keys(gone) =~= all);
    while k < count
        invariant
            k <= count,
            count == ids.len() - MAX_INTEL_LOGS,
            are_smallest(ids@, count as nat, oldest@),
            ids@.no_duplicates(),
            gone.finite(),
            gone.len() == k,
            gone.subset_of(ids@.to_set()),
            forall|q: u64| #[trigger]
                gone.contains(q) <==> exists|j: int|
                    0 <= j < k && ids@[(#[trigger] oldest@[j]) as int] == q,
            intel_by_id(*m) == all.remove_keys(gone),
        decreases count - k,
    {
        let at: usize = oldest[k];
        let id: u64 = ids[at];
        let ghost before = gone;
        proof {
            assert(ids@.contains(id));
            if gone.contains(id) {
                let j = choose|j: int| 0 <= j < k && ids@[(#[trigger] oldest@[j]) as int] == id;
                assert(oldest@[j] != oldest@[k as int]);
            }
        }
        drop_intel(m, id);
        k += 1;
        proof {
            gone = gone.insert(id);
            assert(intel_by_id(*m) =~= all.remove_keys(gone));
            assert forall|q: u64| #[trigger]
                gone.contains(q) <==> exists|j: int|
                    0 <= j < k && ids@[(#[trigger] oldest@[j]) as int] == q by {
                if gone.contains(q) {
                    if before.contains(q) {
                        let j = choose|j: int|
                            0 <= j < k - 1 && ids@[(#[trigger] oldest@[j]) as int] == q;
                        assert(ids@[oldest@[j] as int] == q);
                    } else {
                        assert(ids@[oldest@[k - 1] as int] == q);
                    }
                }
                if exists|j: int| 0 <= j < k && ids@[(#[trigger] oldest@[j]) as int] == q {
                    let j = choose|j: int| 0 <= j < k && ids@[(#[trigger] oldest@[j]) as int] == q;
                    if j < k - 1 {
                        assert(before.contains(q));
                    }
                }
            }
        }
    }
    proof {
        let kept = intel_by_id(*m);
        assert(kept.dom() =~= all.dom().difference(gone));
        vstd::set_lib::lemma_set_difference_len(all.dom(), gone);
        assert(all.dom().intersect(gone) =~= gone);
        assert forall|a: u64, b: u64| #[trigger]
            kept.contains_key(a) && #[trigger] all.contains_key(b) && !kept.contains_key(
                b,
            ) implies b < a by {
            assert(gone.contains(b));
            let j = choose|j: int| 0 <= j < count && ids@[(#[trigger] oldest@[j]) as int] == b;
            assert(ids@.to_set().contains(a));
            let ia = ids@.index_of(a);
            if oldest@.contains(ia as usize) {
                let q = oldest@.index_of(ia as usize);
                assert(ids@[oldest@[q] as int] == a);
                assert(gone.contains(a));
            }
            assert(ids@[oldest@[j] as int] <= ids@[ia]);
        }
    }
}

/// How many samples there are in all.
pub open spec fn sample_total(m: Map<Seq<char>, Seq<SampleModel>>) -> nat {
    map_sum(m, |s: Seq<SampleModel>| s.len())
}

/// How many addresses of a protocol have a known behaviour.
pub open spec fn devices_of(m: Map<Seq<char>, BehaviorModel>, ipv6: bool) -> nat {
    map_count(m, |b: BehaviorModel| (b.ip_type == "IPv6"@) == ipv6)
}

/// The point of the learning curve that describes the detector.
pub open spec fn curve_point(m: DetectorModel, clock: WallClock) -> PointModel {
    PointModel {
        timestamp: clock.text(SECONDS_PATTERN@),
        devices_learned: m.behaviors.dom().len(),
        total_samples: sample_total(m.samples),
        ipv4_count: devices_of(m.behaviors, false),
        ipv6_count: devices_of(m.behaviors, true),
    }
}

/// The learning curve with one more point: the earliest go where there are too many.
pub open spec fn curve_with(curve: Seq<PointModel>, p: PointModel) -> Seq<PointModel> {
    let longer = curve.push(p);
    if longer.len() > MAX_CURVE_POINTS {
        longer.skip(CURVE_TRIM as int)
    } else {
        longer
    }
}

/// What the health report says.
pub open spec fn health_report(m: DetectorModel) -> Seq<Seq<char>> {
    seq![
        " HEALTH STATUS / СОСТОЯНИЕ:"@,
        "   Devices learned/Обучено устройств: "@ + dec(m.behaviors.dom().len()) + " (IPv4: "@ + dec(
            devices_of(m.behaviors, false),
        ) + ", IPv6: "@ + dec(devices_of(m.behaviors, true)) + ")"@,
        "   Total samples/Всего образцов:    "@ + dec(sample_total(m.samples)),
        "   Intel logs/Intel логов:       "@ + dec(m.intel.dom().len()),
        "   Kayoli patterns/Kayoli паттернов:  "@ + dec(m.kayoli.attack.len()),
    ]
}

/// The samples of the listed addresses, one address after the other.
pub open spec fn samples_in_order(
    m: Map<Seq<char>, Seq<SampleModel>>,
    ips: Seq<Seq<char>>,
) -> Seq<SampleModel>
    decreases ips.len(),
{
    if ips.len() == 0 {
        seq![]
    } else {
        samples_in_order(m, ips.drop_last()) + m[ips.last()]
    }
}

/// Entries with each key once, and every key, list the keys.
proof fn lemma_lists<V, W>(entries: Seq<(String, W)>, m: Map<Seq<char>, V>)
    requires
        forall|i: int, j: int|
            0 <= i < j < entries.len() ==> (#[trigger] entries[i]).0@ != (
            #[trigger] entries[j]).0@,
        forall|i: int| 0 <= i < entries.len() ==> m.contains_key((#[trigger] entries[i]).0@),
        forall|k: Seq<char>| #[trigger]
            m.contains_key(k) ==> exists|i: int|
                0 <= i < entries.len() && (#[trigger] entries[i]).0@ == k,
    ensures
        lists(entries.map_values(|e: (String, W)| e.0@), m),
{
    let ks = entries.map_values(|e: (String, W)| e.0@);
    assert forall|k: Seq<char>| ks.to_set().contains(k) <==> m.dom().contains(k) by {
        if m.contains_key(k) {
            let i = choose|i: int| 0 <= i < entries.len() && (#[trigger] entries[i]).0@ == k;
            assert(ks[i] == k);
        }
        if ks.contains(k) {
            let i = ks.index_of(k);
            assert(m.contains_key(entries[i].0@));
        }
    }
    assert(ks.to_set() =~= m.dom());
}

/// What a list of findings says.
pub open spec fn intel_views(s: Seq<IntelligenceLog>) -> Seq<IntelModel> {
    s.map_values(|x: IntelligenceLog| x@)
}

impl AIDetector {
    /// Forgets old samples and the earliest findings.
    pub fn cleanup_old_data(&mut self, clock: &WallClock)
        requires
            clock.wf(),
        ensures
            data_cleaned(old(self)@, final(self)@, *clock),
    {
        retain_samples(&mut self.training_data, clock);
        if intel_count(&self.intel_logs) > MAX_INTEL_LOGS {
            keep_latest_intel(&mut self.intel_logs);
        }
    }

    /// How many samples there are in all.
    pub fn total_samples(&self) -> (r: u128)
        ensures
            r == sample_total(self@.samples),
    {
        let counts = sample_counts(&self.training_data);
        let ghost m = self@.samples;
        let ghost f = |s: Seq<SampleModel>| s.len();
        let ghost ips = counts@.map_values(|e: (String, usize)| e.0@);
        let mut total: u128 = 0;
        let mut i: usize = 0;
        assert(ips.take(0) =~= Seq::<Seq<char>>::empty());
        while i < counts.len()
            invariant
                i <= counts.len(),
                f == |s: Seq<SampleModel>| s.len(),
                ips == counts@.map_values(|e: (String, usize)| e.0@),
                forall|k: int| 0 <= k < counts@.len() ==> m[(#[trigger] counts@[k]).0@].len()
                    == counts@[k].1,
                total == list_sum(m, ips.take(i as int), f),
                total <= i * 0xffff_ffff_ffff_ffff,
            decreases counts.len() - i,
        {
            proof {
                assert(ips.take(i + 1).drop_last() =~= ips.take(i as int));
                assert(ips[i as int] == counts@[i as int].0@);
                assert((i + 1) * 0xffff_ffff_ffff_ffff == i * 0xffff_ffff_ffff_ffff
                    + 0xffff_ffff_ffff_ffff) by (nonlinear_arith);
                assert(i * 0xffff_ffff_ffff_ffff <= 0xffff_ffff_ffff_ffff * 0xffff_ffff_ffff_ffff)
                    by (nonlinear_arith)
                    requires
                        i <= 0xffff_ffff_ffff_ffff,
                ;
            }
            total = total + counts[i].1 as u128;
            i += 1;
        }
        proof {
            assert(ips.take(i as int) =~= ips);
            lemma_lists(counts@, m);
            lemma_sum(m, ips, f);
        }
        total
    }

    /// How many devices have a known behaviour: in all, with IPv4 and with IPv6.
    pub fn device_counts(&self) -> (r: (usize, usize, usize))
        ensures
            r.0 == self@.behaviors.dom().len(),
            r.1 == devices_of(self@.behaviors, false),
            r.2 == devices_of(self@.behaviors, true),
    {
        let entries = behavior_entries(&self.device_behaviors);
        let ghost m = self@.behaviors;
        let ghost p4 = |b: BehaviorModel| (b.ip_type == "IPv6"@) == false;
        let ghost p6 = |b: BehaviorModel| (b.ip_type == "IPv6"@) == true;
        let ghost ips = entries@.map_values(|e: (String, DeviceBehavior)| e.0@);
        let mut ipv4: usize = 0;
        let mut ipv6: usize = 0;
        let mut i: usize = 0;
        assert(ips.take(0) =~= Seq::<Seq<char>>::empty());
        while i < entries.len()
            invariant
                i <= entries.len(),
                p4 == |b: BehaviorModel| (b.ip_type == "IPv6"@) == false,
                p6 == |b: BehaviorModel| (b.ip_type == "IPv6"@) == true,
                ips == entries@.map_values(|e: (String, DeviceBehavior)| e.0@),
                forall|k: int| 0 <= k < entries@.len() ==> m[(#[trigger] entries@[k]).0@]
                    == entries@[k].1@,
                ipv4 == list_count(m, ips.take(i as int), p4),
                ipv6 == list_count(m, ips.take(i as int), p6),
                ipv4 + ipv6 == i,
            decreases entries.len() - i,
        {
            proof {
                assert(ips.take(i + 1).drop_last() =~= ips.take(i as int));
                assert(ips[i as int] == entries@[i as int].0@);
            }
            if same_text(entries[i].1.ip_type.as_str(), "IPv6") {
                ipv6 += 1;
            } else {
                ipv4 += 1;
            }
            i += 1;
        }
        proof {
            assert(ips.take(i as int) =~= ips);
            lemma_lists(entries@, m);
            lemma_count(m, ips, p4);
            lemma_count(m, ips, p6);
            ips.unique_seq_to_set();
            assert(devices_of(m, false) == map_count(m, p4));
            assert(devices_of(m, true) == map_count(m, p6));
        }
        (entries.len(), ipv4, ipv6)
    }

    /// Adds a point that describes the detector to the learning curve.
    pub fn update_learning_curve(&mut self, clock: &WallClock)
        requires
            clock.wf(),
        ensures
            final(self)@ == (DetectorModel {
                curve: curve_with(old(self)@.curve, curve_point(old(self)@, *clock)),
                ..old(self)@
            }),
    {
        let (devices, ipv4, ipv6) = self.device_counts();
        let point = LearningPoint {
            timestamp: clock.format(SECONDS_PATTERN),
            devices_learned: devices,
            total_samples: self.total_samples(),
            ipv4_count: ipv4,
            ipv6_count: ipv6,
        };
        let ghost p = point@;
        let ghost before = self.learning_curve@;
        self.learning_curve.push(point);
        assert(point_views(self.learning_curve@) =~= point_views(before).push(p));
        if self.learning_curve.len() > MAX_CURVE_POINTS {
            let ghost longer = self.learning_curve@;
            let tail = self.learning_curve.split_off(CURVE_TRIM);
            self.learning_curve = tail;
            assert(point_views(self.learning_curve@) =~= point_views(longer).skip(
                CURVE_TRIM as int,
            ));
        }
    }

    /// The learning curve.
    pub fn learning_curve(&self) -> (r: &Vec<LearningPoint>)
        ensures
            point_views(r@) == self@.curve,
    {
        &self.learning_curve
    }

    /// The patterns of normal behaviour.
    pub fn normal_patterns(&self) -> (r: &Vec<String>)
        ensures
            views(r@) == self@.kayoli.normal,
    {
        self.kayoli.normal_patterns()
    }

    /// The lines of the health report.
    pub fn print_health_status(&self) -> (r: Vec<String>)
        ensures
            views(r@) == health_report(self@),
    {
        let (devices, ipv4, ipv6) = self.device_counts();
        let mut line = with_number("   Devices learned/Обучено устройств: ", devices as u64);
        line.append(" (IPv4: ");
        line.append(decimal(ipv4 as u64).as_str());
        line.append(", IPv6: ");
        line.append(decimal(ipv6 as u64).as_str());
        line.append(")");
        let mut total = "   Total samples/Всего образцов:    ".to_owned();
        total.append(wide_decimal(self.total_samples()).as_str());
        let logs: usize = intel_count(&self.intel_logs);
        let mut out: Vec<String> = Vec::new();
        push_text(&mut out, " HEALTH STATUS / СОСТОЯНИЕ:".to_owned());
        push_text(&mut out, line);
        push_text(&mut out, total);
        push_text(&mut out, with_number("   Intel logs/Intel логов:       ", logs as u64));
        push_text(
            &mut out,
            with_number(
                "   Kayoli patterns/Kayoli паттернов:  ",
                self.kayoli.pattern_count() as u64,
            ),
        );
        assert(views(out@) =~= health_report(self@));
        out
    }

    /// All samples, one address after the other, to be saved.
    pub fn saved_samples(&self) -> (r: Vec<TrainingSample>)
        ensures
            exists|ips: Seq<Seq<char>>| #[trigger]
                lists(ips, self@.samples) && sample_views(r@) == samples_in_order(
                    self@.samples,
                    ips,
                ),
    {
        let counts = sample_counts(&self.training_data);
        let ghost m = self@.samples;
        let ghost ips = counts@.map_values(|e: (String, usize)| e.0@);
        let mut out: Vec<TrainingSample> = Vec::new();
        let mut i: usize = 0;
        assert(ips.take(0) =~= Seq::<Seq<char>>::empty());
        assert(sample_views(out@) =~= samples_in_order(m, ips.take(0)));
        while i < counts.len()
            invariant
                i <= counts.len(),
                m == samples_by_ip(self.training_data),
                ips == counts@.map_values(|e: (String, usize)| e.0@),
                forall|k: int| 0 <= k < counts@.len() ==> m.contains_key(
                    (#[trigger] counts@[k]).0@,
                ),
                sample_views(out@) == samples_in_order(m, ips.take(i as int)),
            decreases counts.len() - i,
        {
            proof {
                assert(ips.take(i + 1).drop_last() =~= ips.take(i as int));
                assert(ips[i as int] == counts@[i as int].0@);
            }
            if let Some(v) = get_samples(&self.training_data, counts[i].0.as_str()) {
                let mut more = v;
                let ghost before = out@;
                let ghost added = more@;
                out.append(&mut more);
                assert(sample_views(out@) =~= sample_views(before) + sample_views(added));
            }
            i += 1;
        }
        proof {
            assert(ips.take(i as int) =~= ips);
            lemma_lists(counts@, m);
        }
        out
    }

    /// All behaviours, to be saved.
    pub fn saved_behaviors(&self) -> (r: Vec<DeviceBehavior>)
        ensures
            exists|ips: Seq<Seq<char>>| #[trigger]
                lists(ips, self@.behaviors) && behavior_views(r@) == ips.map_values(
                    |ip: Seq<char>| self@.behaviors[ip],
                ),
    {
        let entries = behavior_entries(&self.device_behaviors);
        let ghost m = self@.behaviors;
        let ghost ips = entries@.map_values(|e: (String, DeviceBehavior)| e.0@);
        let mut out: Vec<DeviceBehavior> = Vec::new();
        let mut i: usize = 0;
        while i < entries.len()
            invariant
                i <= entries.len(),
                out.len() == i,
                forall|k: int| 0 <= k < i ==> (#[trigger] out@[k])@ == entries@[k].1@,
            decreases entries.len() - i,
        {
            out.push(copy_behavior(&entries[i].1));
            i += 1;
        }
        proof {
            lemma_lists(entries@, m);
            assert forall|k: int| 0 <= k < ips.len() implies #[trigger] behavior_views(out@)[k]
                == m[ips[k]] by {
                assert(m[entries@[k].0@] == entries@[k].1@);
            }
            assert(behavior_views(out@) =~= ips.map_values(
                |ip: Seq<char>| self@.behaviors[ip],
            ));
        }
        out
    }

    /// All findings, to be saved.
    pub fn saved_intel(&self) -> (r: Vec<IntelligenceLog>)
        ensures
            exists|ids: Seq<u64>| #[trigger]
                ids.no_duplicates() && ids.to_set() == self@.intel.dom() && intel_views(r@)
                    == ids.map_values(|id: u64| self@.intel[id]),
    {
        let entries = intel_entries(&self.intel_logs);
        let ghost m = self@.intel;
        let ghost ids = entries@.map_values(|e: (u64, IntelligenceLog)| e.0);
        let mut out: Vec<IntelligenceLog> = Vec::new();
        let mut i: usize = 0;
        while i < entries.len()
            invariant
                i <= entries.len(),
                out.len() == i,
                forall|k: int| 0 <= k < i ==> (#[trigger] out@[k])@ == entries@[k].1@,
            decreases entries.len() - i,
        {
            out.push(copy_intel(&entries[i].1));
            i += 1;
        }
        proof {
            assert(ids.no_duplicates());
            assert(ids.to_set() =~= m.dom()) by {
                assert forall|k: u64| ids.to_set().contains(k) <==> m.dom().contains(k) by {
                    if m.contains_key(k) {
                        let j = choose|j: int|
                            0 <= j < entries@.len() && (#[trigger] entries@[j]).0 == k;
                        assert(ids[j] == k);
                    }
                    if ids.contains(k) {
                        let j = ids.index_of(k);
                        assert(m.contains_key(entries@[j].0));
                    }
                }
            }
            assert forall|k: int| 0 <= k < ids.len() implies #[trigger] intel_views(out@)[k]
                == m[ids[k]] by {
                assert(m[entries@[k].0] == entries@[k].1@);
            }
            assert(intel_views(out@) =~= ids.map_values(|id: u64| self@.intel[id]));
        }
        out
    }
}

// ---------------------------------------------------------------------------
// Laws
// ---------------------------------------------------------------------------

/// After a scan of a device its latest sample is the one just taken, and no more samples
/// are kept of it than the limit allows.
pub proof fn law_samples_are_bounded(
    m: DetectorModel,
    ip: Seq<char>,
    hour: u32,
    day: u32,
    ports: Seq<u16>,
    clock: WallClock,
)
    ensures
        ({
            let kept = sample_collected(m, ip, hour, day, ports, clock).samples[ip];
            0 < kept.len() <= MAX_SAMPLES_PER_IP && kept.last().ip == ip && kept.last().hour == hour
                && kept.last().open_ports == ports
        }),
{
}

/// Whether every sample is kept under its own address, with its protocol, and no address
/// is on record without a sample.
pub open spec fn well_kept(m: Map<Seq<char>, Seq<SampleModel>>) -> bool {
    forall|ip: Seq<char>| #[trigger]
        m.contains_key(ip) ==> m[ip].len() > 0 && all_from(m[ip], ip)
}

/// Whether all samples are of one address and say their protocol.
pub open spec fn all_from(s: Seq<SampleModel>, ip: Seq<char>) -> bool {
    forall|i: int|
        0 <= i < s.len() ==> (#[trigger] s[i]).ip == ip && s[i].ip_type.len() > 0
}

/// Loading, scanning and cleaning up keep every sample under its own address.
pub proof fn law_samples_are_well_kept(
    m: DetectorModel,
    list: Seq<SampleModel>,
    ip: Seq<char>,
    hour: u32,
    day: u32,
    ports: Seq<u16>,
    clock: WallClock,
)
    ensures
        well_kept(samples_loaded(list)),
        well_kept(m.samples) ==> well_kept(
            sample_collected(m, ip, hour, day, ports, clock).samples,
        ),
        well_kept(m.samples) ==> well_kept(samples_retained(m.samples, clock)),
{
    lemma_loaded_well_kept(list);
    lemma_type_shown(ip);
}

proof fn lemma_type_shown(ip: Seq<char>)
    ensures
        ip_type_of(ip).len() > 0,
{
    reveal_strlit("IPv4");
    reveal_strlit("IPv6");
}

proof fn lemma_loaded_well_kept(list: Seq<SampleModel>)
    ensures
        well_kept(samples_loaded(list)),
    decreases list.len(),
{
    if list.len() > 0 {
        lemma_loaded_well_kept(list.drop_last());
        lemma_type_shown(list.last().ip);
    }
}

/// Loading a list that ends in samples of one address adds those to the address.
proof fn lemma_load_block(a: Seq<SampleModel>, b: Seq<SampleModel>, ip: Seq<char>)
    requires
        all_from(b, ip),
        b.len() > 0,
    ensures
        samples_loaded(a + b) == samples_loaded(a).insert(
            ip,
            samples_of(samples_loaded(a), ip) + b,
        ),
    decreases b.len(),
{
    let front = b.drop_last();
    let last = b.last();
    assert((a + b).drop_last() =~= a + front);
    assert((a + b).last() == last);
    assert(filled_sample(last) == last);
    let base = samples_of(samples_loaded(a), ip);
    if front.len() == 0 {
        assert(a + front =~= a);
        assert(base.push(last) =~= base + b);
    } else {
        assert(all_from(front, ip)) by {
            assert forall|i: int| 0 <= i < front.len() implies (#[trigger] front[i]).ip == ip
                && front[i].ip_type.len() > 0 by {
                assert(b[i] == front[i]);
            }
        }
        lemma_load_block(a, front, ip);
        assert((base + front).push(last) =~= base + b);
        assert(samples_loaded(a + b) =~= samples_loaded(a).insert(ip, base + b));
    }
}

/// Samples that were saved, in whatever order of the addresses, are loaded back as they
/// were.
pub proof fn law_saved_samples_load_back(
    m: Map<Seq<char>, Seq<SampleModel>>,
    ips: Seq<Seq<char>>,
)
    requires
        well_kept(m),
        lists(ips, m),
    ensures
        samples_loaded(samples_in_order(m, ips)) == m,
{
    assert forall|ip: Seq<char>| ips.contains(ip) implies m.contains_key(ip) by {
        assert(ips.to_set().contains(ip));
    }
    lemma_load_listed(m, ips);
    assert(m.restrict(ips.to_set()) =~= m);
}

proof fn lemma_load_listed(m: Map<Seq<char>, Seq<SampleModel>>, ips: Seq<Seq<char>>)
    requires
        well_kept(m),
        ips.no_duplicates(),
        forall|ip: Seq<char>| #[trigger] ips.contains(ip) ==> m.contains_key(ip),
    ensures
        samples_loaded(samples_in_order(m, ips)) == m.restrict(ips.to_set()),
    decreases ips.len(),
{
    if ips.len() == 0 {
        assert(samples_loaded(samples_in_order(m, ips)) =~= m.restrict(ips.to_set()));
    } else {
        let front = ips.drop_last();
        let last = ips.last();
        assert(ips.contains(last));
        assert forall|ip: Seq<char>| #[trigger] front.contains(ip) implies m.contains_key(ip) by {
            let i = front.index_of(ip);
            assert(ips[i] == ip);
            assert(ips.contains(ip));
        }
        lemma_load_listed(m, front);
        let a = samples_in_order(m, front);
        assert(all_from(m[last], last));
        lemma_load_block(a, m[last], last);
        assert(!front.to_set().contains(last)) by {
            if front.contains(last) {
                let i = front.index_of(last);
                assert(ips[i] == ips[ips.len() - 1]);
            }
        }
        assert(Seq::<SampleModel>::empty() + m[last] =~= m[last]);
        assert forall|ip: Seq<char>| ips.to_set().contains(ip) <==> front.to_set().insert(
            last,
        ).contains(ip) by {
            if ips.contains(ip) {
                let i = ips.index_of(ip);
                if i < front.len() {
                    assert(front[i] == ip);
                }
            }
            if front.contains(ip) {
                let i = front.index_of(ip);
                assert(ips[i] == ip);
            }
        }
        assert(samples_loaded(samples_in_order(m, ips)) =~= m.restrict(ips.to_set()));
    }
}

/// A score never passes 100, and a device is put on record exactly where its score is
/// high, which its profile warns of.
pub proof fn law_high_risk_is_recorded(
    m: DetectorModel,
    ip: Seq<char>,
    ports: Seq<u16>,
    anomaly: Option<Anomaly>,
    mac: Option<String>,
    clock: WallClock,
)
    ensures
        ({
            let profile = profile_of(ip, ports, anomaly, mac, clock);
            let after = device_analyzed(m, ip, ports, anomaly, clock);
            &&& profile.risk_score <= 100
            &&& profile.warning_count == 1 <==> profile.risk_score >= HIGH_RISK_THRESHOLD
            &&& profile.risk_score < HIGH_RISK_THRESHOLD ==> after == m
            &&& profile.risk_score >= HIGH_RISK_THRESHOLD ==> after.intel.contains_key(
                m.intel_counter,
            ) && after.intel[m.intel_counter].risk_level == profile.risk_score
                && after.intel[m.intel_counter].ip == ip
        }),
{
}

/// Open ports alone never make a device a high risk: without an anomaly its score is at
/// most 35.
pub proof fn law_ports_alone_are_no_high_risk(ports: Seq<u16>)
    ensures
        risk_score(None, ports) <= 35,
{
}

/// A device that behaves as it usually does, and that no pattern finds anything about,
/// shows no sign of an anomaly.
pub proof fn law_usual_behaviour_is_no_anomaly(
    m: DetectorModel,
    ip: Seq<char>,
    hour: u32,
    ports: Seq<u16>,
)
    requires
        m.behaviors.contains_key(ip),
        m.behaviors[ip].typical_hours.contains(hour),
        forall|i: int|
            0 <= i < ports.len() ==> m.behaviors[ip].typical_ports.contains(#[trigger] ports[i]),
        total_risk(m.kayoli.attack, hour, ports) == 0,
    ensures
        ({
            let e = evidence_of(m, ip, hour, ports);
            e.kayoli_risk == 0 && !e.unusual_time && e.unusual_ports == 0 && e.anomalies.len() == 0
        }),
{
    let b = m.behaviors[ip];
    let p = |x: u16| !b.typical_ports.contains(x);
    lemma_filter_none(ports, p);
}

proof fn lemma_filter_none(s: Seq<u16>, p: spec_fn(u16) -> bool)
    requires
        forall|i: int| 0 <= i < s.len() ==> !p(#[trigger] s[i]),
    ensures
        s.filter(p).len() == 0,
    decreases s.len(),
{
    reveal(Seq::filter);
    if s.len() > 0 {
        lemma_filter_none(s.drop_last(), p);
    }
}

/// Of a device with a learnt behaviour that has a typical hour and more than ten
/// appearances, every hour that is not among the typical ones is unusual, and no other; the
/// remark names it. Of one without a typical hour or with at most ten appearances no hour
/// is. The behaviour rests on few samples if they are less than five.
pub proof fn law_unusual_hours(m: DetectorModel, ip: Seq<char>, hour: u32, ports: Seq<u16>)
    requires
        m.behaviors.contains_key(ip),
    ensures
        ({
            let b = m.behaviors[ip];
            let e = evidence_of(m, ip, hour, ports);
            let remark = "Необычное время: "@ + dec(hour as nat) + "ч (обычно "@ + list_text(
                b.typical_hours,
            ) + "ч)"@;
            &&& b.typical_hours.len() > 0 && b.appearance_count > 10 ==> (e.unusual_time <==> (
            forall|i: int|
                0 <= i < b.typical_hours.len() ==> #[trigger] b.typical_hours[i] != hour))
            &&& b.typical_hours.len() == 0 || b.appearance_count <= 10 ==> !e.unusual_time
            &&& e.unusual_time ==> e.anomalies.contains(remark)
            &&& e.few_samples <==> b.appearance_count < 5
        }),
{
    let b = m.behaviors[ip];
    let e = evidence_of(m, ip, hour, ports);
    let found = if e.kayoli_risk > 0 {
        all_matches(m.kayoli.attack, hour, ports)
    } else {
        Seq::<Seq<char>>::empty()
    };
    if e.unusual_time {
        assert(e.anomalies[found.len() as int] == time_remark(hour, b.typical_hours));
    }
}

/// A device without a learnt behaviour has no unusual hour or port: all that is held against
/// it are the remarks of the patterns.
pub proof fn law_unknown_devices_have_no_habits(
    m: DetectorModel,
    ip: Seq<char>,
    hour: u32,
    ports: Seq<u16>,
)
    requires
        !m.behaviors.contains_key(ip),
    ensures
        ({
            let e = evidence_of(m, ip, hour, ports);
            &&& !e.unusual_time && e.unusual_ports == 0 && !e.few_samples
            &&& e.anomalies == all_matches(m.kayoli.attack, hour, ports)
        }),
{
    law_remarks_and_risk_agree(m.kayoli.attack, hour, ports);
    assert(all_matches(m.kayoli.attack, hour, ports).len() == 0 ==> all_matches(
        m.kayoli.attack,
        hour,
        ports,
    ) =~= Seq::empty());
}

/// The evidence holds all remarks of the patterns, then one on the hour if it is unusual,
/// and then one on the ports if any is. The risk of the patterns is cut at 100.
pub proof fn law_evidence_is_complete(
    m: DetectorModel,
    ip: Seq<char>,
    hour: u32,
    ports: Seq<u16>,
)
    ensures
        ({
            let e = evidence_of(m, ip, hour, ports);
            let found = all_matches(m.kayoli.attack, hour, ports);
            let risk = total_risk(m.kayoli.attack, hour, ports);
            &&& e.kayoli_matches == found.len()
            &&& risk <= 100 ==> e.kayoli_risk == risk
            &&& risk > 100 ==> e.kayoli_risk == 100
            &&& e.anomalies.len() == found.len() + (if e.unusual_time {
                1int
            } else {
                0int
            }) + (if e.unusual_ports > 0 {
                1int
            } else {
                0int
            })
            &&& e.anomalies.take(found.len() as int) == found
        }),
{
    let e = evidence_of(m, ip, hour, ports);
    let found = all_matches(m.kayoli.attack, hour, ports);
    law_remarks_and_risk_agree(m.kayoli.attack, hour, ports);
    assert(e.anomalies.take(found.len() as int) =~= found);
}

/// Of a device with typical ports each open port that is not typical counts as unusual, as
/// often as it is open, and no other does: one more open port adds one exactly if it is
/// not typical. Where no port is typical none is unusual.
pub proof fn law_unusual_ports_add_up(
    m: DetectorModel,
    ip: Seq<char>,
    hour: u32,
    ports: Seq<u16>,
    port: u16,
)
    requires
        m.behaviors.contains_key(ip),
    ensures
        ({
            let b = m.behaviors[ip];
            let before = evidence_of(m, ip, hour, ports).unusual_ports;
            let after = evidence_of(m, ip, hour, ports.push(port)).unusual_ports;
            &&& b.typical_ports.len() > 0 && !b.typical_ports.contains(port) ==> after == before + 1
            &&& b.typical_ports.len() > 0 && b.typical_ports.contains(port) ==> after == before
            &&& b.typical_ports.len() == 0 ==> after == 0
            &&& ports.len() == 0 ==> before == 0
        }),
{
    reveal(Seq::filter);
    assert(ports.push(port).drop_last() =~= ports);
}

/// The remark on unusual ports lists the open ports that are not typical, in their order.
pub proof fn law_unusual_ports_are_named(
    m: DetectorModel,
    ip: Seq<char>,
    hour: u32,
    ports: Seq<u16>,
    port: u16,
)
    requires
        m.behaviors.contains_key(ip),
        evidence_of(m, ip, hour, ports).unusual_ports > 0,
    ensures
        ({
            let b = m.behaviors[ip];
            let odd = unusual_ports(b, ports);
            &&& odd.contains(port) <==> ports.contains(port) && !b.typical_ports.contains(port)
            &&& evidence_of(m, ip, hour, ports).anomalies.last() == "Необычные порты: "@
                + list_text(widened(odd))
        }),
{
    let b = m.behaviors[ip];
    lemma_filter_contains(ports, |p: u16| !b.typical_ports.contains(p), port);
}

/// The score of a device is the sum of the points of its anomaly, 20 points if one of the
/// ports 22, 23, 445, 3389 and 5900 is open, and 15 if more than five ports are; what passes
/// 100 is cut. Each of the two brings a remark, after those of the anomaly.
pub proof fn law_risk_adds_up(anomaly: Option<Anomaly>, ports: Seq<u16>)
    ensures
        ({
            let danger = exists|i: int|
                0 <= i < ports.len() && ((#[trigger] ports[i]) == 22 || ports[i] == 23 || ports[i]
                    == 445 || ports[i] == 3389 || ports[i] == 5900);
            let own: int = if anomaly is Some {
                anomaly->0.points as int
            } else {
                0
            };
            let told: int = if anomaly is Some {
                anomaly->0.remarks@.len() as int
            } else {
                0
            };
            let sum = own + (if danger {
                20int
            } else {
                0
            }) + (if ports.len() >= 6 {
                15int
            } else {
                0
            });
            let remarks = activities(anomaly, ports);
            &&& sum <= 100 ==> risk_score(anomaly, ports) == sum
            &&& sum > 100 ==> risk_score(anomaly, ports) == 100
            &&& remarks.len() == told + (if danger {
                1int
            } else {
                0
            }) + (if ports.len() >= 6 {
                1int
            } else {
                0
            })
            &&& forall|i: int| 0 <= i < told ==> #[trigger] remarks[i] == anomaly->0.remarks@[i]@
            &&& danger ==> remarks[told] == "Опасный порт обнаружен"@
            &&& ports.len() >= 6 ==> remarks[remarks.len() - 1] == "Массовое сканирование ("@ + dec(
                ports.len(),
            ) + " портов)"@
        }),
{
}

/// What a profile says of a score: from 70 on the device is investigated, from 40 on it is
/// watched, and below it is a low risk. From 60 on there is one warning, and the finding is
/// put on record under the next number, with the score and all remarks.
pub proof fn law_profile_follows_the_score(
    m: DetectorModel,
    ip: Seq<char>,
    ports: Seq<u16>,
    anomaly: Option<Anomaly>,
    mac: Option<String>,
    clock: WallClock,
)
    ensures
        ({
            let p = profile_of(ip, ports, anomaly, mac, clock);
            let after = device_analyzed(m, ip, ports, anomaly, clock);
            &&& p.risk_score == risk_score(anomaly, ports)
            &&& p.status == "investigating"@ || p.risk_score < 70
            &&& p.status == "monitoring"@ || p.risk_score < 40 || p.risk_score >= 70
            &&& p.status == "low_risk"@ || p.risk_score >= 40
            &&& p.warning_count == (if p.risk_score >= 60 {
                1int
            } else {
                0
            })
            &&& p.ip == ip && p.scanned_ports == ports && p.attack_count == 1
            &&& p.suspicious_activities == activities(anomaly, ports)
            &&& p.first_seen == p.last_seen && p.recent_events.len() == 0
            &&& p.risk_score < 60 ==> after.intel == m.intel && after.intel_counter
                == m.intel_counter
            &&& p.risk_score >= 60 ==> after.intel.dom() == m.intel.dom().insert(m.intel_counter)
                && after.intel[m.intel_counter].details == dec(p.risk_score) + "% - "@ + joined(
                p.suspicious_activities,
                ", "@,
            ) && after.intel[m.intel_counter].event_type == "high_risk"@
                && after.intel[m.intel_counter].source == "AI"@ && after.intel[m.intel_counter].ip
                == ip && after.intel[m.intel_counter].risk_level == p.risk_score
            &&& p.risk_score >= 60 && m.intel_counter < u64::MAX ==> after.intel_counter
                == m.intel_counter + 1
            &&& after.samples == m.samples && after.behaviors == m.behaviors && after.curve
                == m.curve && after.kayoli == m.kayoli
        }),
{
}

/// A device is learnt about from its fifth sample on, and from what is on record of it
/// alone: other devices stay as they are.
pub proof fn law_learning_starts_with_five_samples(
    m: DetectorModel,
    ip: Seq<char>,
    threshold: u32,
    avg_interval: u64,
)
    ensures
        ({
            let after = behavior_updated(m, ip, threshold, avg_interval);
            let enough = m.samples.contains_key(ip) && m.samples[ip].len() >= 5;
            &&& learnable(m, ip) <==> enough
            &&& enough ==> after.behaviors.contains_key(ip) && after.behaviors[ip] == behavior_of(
                ip,
                m.samples[ip],
                threshold,
                avg_interval,
            )
            &&& !enough ==> after == m
            &&& forall|other: Seq<char>|
                other != ip ==> (#[trigger] after.behaviors.contains_key(other)
                    <==> m.behaviors.contains_key(other)) && (m.behaviors.contains_key(other)
                    ==> after.behaviors[other] == m.behaviors[other])
            &&& after.samples == m.samples && after.intel == m.intel && after.curve == m.curve
        }),
{
}

/// A scan adds one sample at the end of those of its address and leaves the other addresses
/// alone. Up to 500 samples stay; one more, and the latest 400 do.
pub proof fn law_a_scan_adds_one_sample(
    m: DetectorModel,
    ip: Seq<char>,
    hour: u32,
    day: u32,
    ports: Seq<u16>,
    clock: WallClock,
)
    ensures
        ({
            let before = if m.samples.contains_key(ip) {
                m.samples[ip]
            } else {
                Seq::<SampleModel>::empty()
            };
            let after = sample_collected(m, ip, hour, day, ports, clock);
            let kept = after.samples[ip];
            &&& after.samples.contains_key(ip)
            &&& before.len() < 500 ==> kept.len() == before.len() + 1 && kept.drop_last() == before
            &&& before.len() >= 500 ==> kept.len() == 400 && kept.drop_last() == before.skip(
                before.len() - 399,
            )
            &&& kept.last().ip == ip && kept.last().hour == hour && kept.last().day_of_week == day
                && kept.last().open_ports == ports && kept.last().timestamp == clock.text(
                "%Y-%m-%d %H:%M:%S%.3f"@,
            )
            &&& ip.contains(':') ==> kept.last().ip_type == "IPv6"@
            &&& !ip.contains(':') ==> kept.last().ip_type == "IPv4"@
            &&& forall|other: Seq<char>|
                other != ip ==> (#[trigger] after.samples.contains_key(other)
                    <==> m.samples.contains_key(other)) && (m.samples.contains_key(other)
                    ==> after.samples[other] == m.samples[other])
            &&& after.behaviors == m.behaviors && after.intel == m.intel
        }),
{
    let before = samples_of(m.samples, ip);
    let kept = sample_collected(m, ip, hour, day, ports, clock).samples[ip];
    if before.len() < 500 {
        assert(kept.drop_last() =~= before);
    } else {
        assert(kept.drop_last() =~= before.skip(before.len() - 399));
    }
}

/// What is loaded: a sample more in the list is the latest of its address, and a behaviour
/// more replaces an earlier one of its address. Where the protocol is missing, it is the one
/// that the address shows.
pub proof fn law_loading_goes_in_order(
    s: Seq<SampleModel>,
    x: SampleModel,
    b: Seq<BehaviorModel>,
    y: BehaviorModel,
    ip: Seq<char>,
)
    ensures
        ({
            let before = samples_loaded(s);
            let after = samples_loaded(s.push(x));
            &&& samples_loaded(Seq::empty()).dom() == Set::<Seq<char>>::empty()
            &&& after.contains_key(x.ip)
            &&& after[x.ip].last().timestamp == x.timestamp && after[x.ip].last().hour == x.hour
                && after[x.ip].last().open_ports == x.open_ports && after[x.ip].last().day_of_week
                == x.day_of_week && after[x.ip].last().ip == x.ip
            &&& x.ip_type.len() > 0 ==> after[x.ip].last() == x
            &&& x.ip_type.len() == 0 && x.ip.contains(':') ==> after[x.ip].last().ip_type
                == "IPv6"@
            &&& x.ip_type.len() == 0 && !x.ip.contains(':') ==> after[x.ip].last().ip_type
                == "IPv4"@
            &&& before.contains_key(x.ip) ==> after[x.ip].drop_last() == before[x.ip]
            &&& !before.contains_key(x.ip) ==> after[x.ip].len() == 1
            &&& ip != x.ip ==> (after.contains_key(ip) <==> before.contains_key(ip)) && after[ip]
                == before[ip]
        }),
        ({
            let before = behaviors_loaded(b);
            let after = behaviors_loaded(b.push(y));
            &&& behaviors_loaded(Seq::empty()).dom() == Set::<Seq<char>>::empty()
            &&& after.contains_key(y.ip)
            &&& y.ip_type.len() > 0 ==> after[y.ip] == y
            &&& y.ip_type.len() == 0 && y.ip.contains(':') ==> after[y.ip] == (BehaviorModel {
                ip_type: "IPv6"@,
                ..y
            })
            &&& y.ip_type.len() == 0 && !y.ip.contains(':') ==> after[y.ip] == (BehaviorModel {
                ip_type: "IPv4"@,
                ..y
            })
            &&& ip != y.ip ==> (after.contains_key(ip) <==> before.contains_key(ip)) && after[ip]
                == before[ip]
        }),
{
    assert(s.push(x).drop_last() =~= s);
    assert(b.push(y).drop_last() =~= b);
    let before = samples_loaded(s);
    let after = samples_loaded(s.push(x));
    if before.contains_key(x.ip) {
        assert(after[x.ip].drop_last() =~= before[x.ip]);
    }
}

/// The learning curve grows by one point at its end; from the 10001st point on the first
/// thousand go.
pub proof fn law_curve_forgets_its_start(curve: Seq<PointModel>, p: PointModel)
    ensures
        curve_with(curve, p).last() == p,
        curve.len() < 10000 ==> curve_with(curve, p).drop_last() == curve,
        curve.len() >= 10000 ==> curve_with(curve, p).drop_last() == curve.skip(1000),
        curve.len() <= 10000 ==> curve_with(curve, p).len() <= 10000,
{
    if curve.len() < 10000 {
        assert(curve_with(curve, p).drop_last() =~= curve);
    } else {
        assert(curve_with(curve, p).drop_last() =~= curve.skip(1000));
    }
}

/// A cleanup leaves at most 10000 findings, and drops none while there are no more; what it
/// drops are the earliest. What was learnt stays.
pub proof fn law_cleanup_keeps_the_latest_findings(
    before: DetectorModel,
    after: DetectorModel,
    clock: WallClock,
    a: u64,
    b: u64,
)
    requires
        data_cleaned(before, after, clock),
    ensures
        before.intel.dom().len() <= 10000 ==> after.intel == before.intel,
        before.intel.dom().len() > 10000 ==> after.intel.dom().len() == 10000,
        after.intel.contains_key(a) ==> before.intel.contains_key(a) && after.intel[a]
            == before.intel[a],
        after.intel.contains_key(a) && before.intel.contains_key(b) && !after.intel.contains_key(b)
            ==> b < a,
        after.behaviors == before.behaviors,
        after.curve == before.curve,
        after.intel_counter == before.intel_counter,
{
}

/// What the statistics count: one more address with samples adds its samples, and one more
/// address with a behaviour counts once, under IPv6 if its protocol is "IPv6" and else under
/// IPv4.
pub proof fn law_statistics_add_up(
    samples: Map<Seq<char>, Seq<SampleModel>>,
    behaviors: Map<Seq<char>, BehaviorModel>,
    ip: Seq<char>,
    s: Seq<SampleModel>,
    b: BehaviorModel,
)
    requires
        samples.dom().finite(),
        behaviors.dom().finite(),
        !samples.contains_key(ip),
        !behaviors.contains_key(ip),
    ensures
        sample_total(samples.insert(ip, s)) == sample_total(samples) + s.len(),
        b.ip_type == "IPv6"@ ==> devices_of(behaviors.insert(ip, b), true) == devices_of(
            behaviors,
            true,
        ) + 1 && devices_of(behaviors.insert(ip, b), false) == devices_of(behaviors, false),
        b.ip_type != "IPv6"@ ==> devices_of(behaviors.insert(ip, b), false) == devices_of(
            behaviors,
            false,
        ) + 1 && devices_of(behaviors.insert(ip, b), true) == devices_of(behaviors, true),
{
    lemma_sum_insert(samples, ip, s, |x: Seq<SampleModel>| x.len());
    lemma_count_insert(behaviors, ip, b, |x: BehaviorModel| (x.ip_type == "IPv6"@) == true);
    lemma_count_insert(behaviors, ip, b, |x: BehaviorModel| (x.ip_type == "IPv6"@) == false);
}

/// A point of the learning curve says when it was taken, how many devices and samples there
/// were, and how many devices of each protocol.
pub proof fn law_curve_points(m: DetectorModel, clock: WallClock)
    ensures
        ({
            let p = curve_point(m, clock);
            &&& p.timestamp == clock.text("%Y-%m-%d %H:%M:%S"@)
            &&& p.devices_learned == m.behaviors.dom().len()
            &&& p.total_samples == sample_total(m.samples)
            &&& p.ipv4_count == devices_of(m.behaviors, false)
            &&& p.ipv6_count == devices_of(m.behaviors, true)
        }),
{
}

/// The health report shows each of these numbers.
pub proof fn law_health_report(m: DetectorModel)
    ensures
        ({
            let r = health_report(m);
            &&& r.len() == 5
            &&& r[1] == "   Devices learned/Обучено устройств: "@ + dec(m.behaviors.dom().len())
                + " (IPv4: "@ + dec(devices_of(m.behaviors, false)) + ", IPv6: "@ + dec(
                devices_of(m.behaviors, true),
            ) + ")"@
            &&& r[2] == "   Total samples/Всего образцов:    "@ + dec(sample_total(m.samples))
            &&& r[3] == "   Intel logs/Intel логов:       "@ + dec(m.intel.dom().len())
            &&& r[4] == "   Kayoli patterns/Kayoli паттернов:  "@ + dec(m.kayoli.attack.len())
        }),
{
}

} // verus!
