//! The concurrent maps of `dashmap`, as far as they are used.
use dashmap::DashMap;
use vstd::prelude::*;

use crate::clock::WallClock;
use crate::training::{
    copy_behavior, copy_intel, copy_samples, keep_samples, sample_views, samples_retained,
    BehaviorModel, DeviceBehavior, IntelModel, IntelligenceLog, SampleModel, TrainingSample,
};
use crate::window::age;

verus! {

/// The concurrent map of `dashmap`.
#[verifier::external_type_specification]
#[verifier::external_body]
#[verifier::reject_recursive_types(K)]
#[verifier::reject_recursive_types(V)]
#[verifier::reject_recursive_types(S)]
pub struct ExDashMap<K, V, S>(dashmap::DashMap<K, V, S>);

// ---------------------------------------------------------------------------
// Times by address
// ---------------------------------------------------------------------------

/// The time that a map holds for each address.
pub uninterp spec fn times_by_address(m: DashMap<u128, u64>) -> Map<u128, u64>;

/// `DashMap::new`: a map that holds nothing.
#[verifier::external_body]
pub(crate) fn address_times() -> (r: DashMap<u128, u64>)
    ensures
        times_by_address(r).dom() == Set::<u128>::empty(),
{
    DashMap::new()
}

/// `DashMap::get`: the time held for an address.
#[verifier::external_body]
pub(crate) fn address_time(m: &DashMap<u128, u64>, address: u128) -> (r: Option<u64>)
    ensures
        r == times_by_address(*m).get(address),
{
    m.get(&address).map(|t| *t)
}

/// `DashMap::insert`: the time becomes the one held for the address.
#[verifier::external_body]
pub(crate) fn set_address_time(m: &mut DashMap<u128, u64>, address: u128, time: u64)
    ensures
        times_by_address(*final(m)) == times_by_address(*old(m)).insert(address, time),
{
    m.insert(address, time);
}

/// `DashMap::retain`: the addresses stay whose time is one of the last `span`
/// nanoseconds before `now`.
#[verifier::external_body]
pub(crate) fn keep_address_times(m: &mut DashMap<u128, u64>, now: u64, span: u64)
    ensures
        times_by_address(*final(m)) == within(times_by_address(*old(m)), now, span),
{
    m.retain(|_, t| is_within(*t, now, span))
}

/// Whether `t` is one of the last `span` nanoseconds before `now`.
pub open spec fn in_span(t: u64, now: u64, span: u64) -> bool {
    age(t, now) < span
}

/// Whether `t` is one of the last `span` nanoseconds before `now`.
pub fn is_within(t: u64, now: u64, span: u64) -> (r: bool)
    ensures
        r == in_span(t, now, span),
{
    now.saturating_sub(t) < span
}

/// The entries whose time is one of the last `span` nanoseconds before `now`.
pub open spec fn within<K>(m: Map<K, u64>, now: u64, span: u64) -> Map<K, u64> {
    m.restrict(Set::new(|k: K| m.contains_key(k) && in_span(m[k], now, span)))
}

// ---------------------------------------------------------------------------
// Times by name
// ---------------------------------------------------------------------------

/// The time that a map holds for each name.
pub uninterp spec fn times_by_name(m: DashMap<String, u64>) -> Map<Seq<char>, u64>;

/// `DashMap::new`: a map that holds nothing.
#[verifier::external_body]
pub(crate) fn name_times() -> (r: DashMap<String, u64>)
    ensures
        times_by_name(r).dom() == Set::<Seq<char>>::empty(),
{
    DashMap::new()
}

/// `DashMap::get`: the time held for a name.
#[verifier::external_body]
pub(crate) fn name_time(m: &DashMap<String, u64>, name: &str) -> (r: Option<u64>)
    ensures
        r == times_by_name(*m).get(name@),
{
    m.get(name).map(|t| *t)
}

/// `DashMap::insert`: the time becomes the one held for the name.
#[verifier::external_body]
pub(crate) fn set_name_time(m: &mut DashMap<String, u64>, name: String, time: u64)
    ensures
        times_by_name(*final(m)) == times_by_name(*old(m)).insert(name@, time),
{
    m.insert(name, time);
}

/// `DashMap::remove`: nothing is held for the name.
#[verifier::external_body]
pub(crate) fn drop_name_time(m: &mut DashMap<String, u64>, name: &str)
    ensures
        times_by_name(*final(m)) == times_by_name(*old(m)).remove(name@),
{
    m.remove(name);
}

/// `DashMap::len`: how many names there are.
#[verifier::external_body]
pub(crate) fn name_count(m: &DashMap<String, u64>) -> (r: usize)
    ensures
        r == times_by_name(*m).dom().len(),
{
    m.len()
}

/// `DashMap::retain`: the names stay whose time is one of the last `span` nanoseconds
/// before `now`.
#[verifier::external_body]
pub(crate) fn keep_name_times(m: &mut DashMap<String, u64>, now: u64, span: u64)
    ensures
        times_by_name(*final(m)) == within(times_by_name(*old(m)), now, span),
{
    m.retain(|_, t| is_within(*t, now, span))
}

/// `DashMap::iter`: each name with its time, once, in an order that is not known.
#[verifier::external_body]
pub(crate) fn name_entries(m: &DashMap<String, u64>) -> (r: Vec<(String, u64)>)
    ensures
        forall|k: Seq<char>| #[trigger] times_by_name(*m).contains_key(k) ==> exists|i: int|
            0 <= i < r@.len() && (#[trigger] r@[i]).0@ == k,
        forall|i: int|
            0 <= i < r@.len() ==> times_by_name(*m).contains_key((#[trigger] r@[i]).0@)
                && times_by_name(*m)[r@[i].0@] == r@[i].1,
        forall|i: int, j: int|
            0 <= i < j < r@.len() ==> (#[trigger] r@[i]).0@ != (#[trigger] r@[j]).0@,
{
    m.iter().map(|e| (e.key().clone(), *e.value())).collect()
}

// ---------------------------------------------------------------------------
// Samples
// ---------------------------------------------------------------------------

/// The samples that a map holds for each address.
pub uninterp spec fn samples_by_ip(m: DashMap<String, Vec<TrainingSample>>) -> Map<
    Seq<char>,
    Seq<SampleModel>,
>;

/// `DashMap::new`: a map that holds nothing.
#[verifier::external_body]
pub(crate) fn new_samples() -> (r: DashMap<String, Vec<TrainingSample>>)
    ensures
        samples_by_ip(r).dom() == Set::<Seq<char>>::empty(),
{
    DashMap::new()
}

/// `DashMap::get`: the samples held for an address, copied.
#[verifier::external_body]
pub(crate) fn get_samples(m: &DashMap<String, Vec<TrainingSample>>, ip: &str) -> (r: Option<
    Vec<TrainingSample>,
>)
    ensures
        match r {
            Some(v) => samples_by_ip(*m).get(ip@) == Some(sample_views(v@)),
            None => samples_by_ip(*m).get(ip@) is None,
        },
{
    m.get(ip).map(|v| copy_samples(v.value()))
}

/// `DashMap::insert`: the samples become those held for the address.
#[verifier::external_body]
pub(crate) fn set_samples(
    m: &mut DashMap<String, Vec<TrainingSample>>,
    ip: String,
    samples: Vec<TrainingSample>,
)
    ensures
        samples_by_ip(*final(m)) == samples_by_ip(*old(m)).insert(ip@, sample_views(samples@)),
{
    m.insert(ip, samples);
}

/// `DashMap::retain`: each address stays or goes as `keep_samples` says of its samples,
/// which may cut them down.
#[verifier::external_body]
pub(crate) fn retain_samples(m: &mut DashMap<String, Vec<TrainingSample>>, clock: &WallClock)
    requires
        clock.wf(),
    ensures
        samples_by_ip(*final(m)) == samples_retained(samples_by_ip(*old(m)), *clock),
{
    m.retain(|_, v| keep_samples(v, clock))
}

/// `DashMap::iter`: each address with the number of its samples, once, in an order that
/// is not known.
#[verifier::external_body]
pub(crate) fn sample_counts(m: &DashMap<String, Vec<TrainingSample>>) -> (r: Vec<(String, usize)>)
    ensures
        forall|k: Seq<char>| #[trigger] samples_by_ip(*m).contains_key(k) ==> exists|i: int|
            0 <= i < r@.len() && (#[trigger] r@[i]).0@ == k,
        forall|i: int|
            0 <= i < r@.len() ==> samples_by_ip(*m).contains_key((#[trigger] r@[i]).0@)
                && samples_by_ip(*m)[r@[i].0@].len() == r@[i].1,
        forall|i: int, j: int|
            0 <= i < j < r@.len() ==> (#[trigger] r@[i]).0@ != (#[trigger] r@[j]).0@,
{
    m.iter().map(|e| (e.key().clone(), e.value().len())).collect()
}

// ---------------------------------------------------------------------------
// Behaviours
// ---------------------------------------------------------------------------

/// The behaviour that a map holds for each address.
pub uninterp spec fn behaviors_by_ip(m: DashMap<String, DeviceBehavior>) -> Map<
    Seq<char>,
    BehaviorModel,
>;

/// `DashMap::new`: a map that holds nothing.
#[verifier::external_body]
pub(crate) fn new_behaviors() -> (r: DashMap<String, DeviceBehavior>)
    ensures
        behaviors_by_ip(r).dom() == Set::<Seq<char>>::empty(),
{
    DashMap::new()
}

/// `DashMap::get`: the behaviour held for an address, copied.
#[verifier::external_body]
pub(crate) fn get_behavior(m: &DashMap<String, DeviceBehavior>, ip: &str) -> (r: Option<
    DeviceBehavior,
>)
    ensures
        match r {
            Some(b) => behaviors_by_ip(*m).get(ip@) == Some(b@),
            None => behaviors_by_ip(*m).get(ip@) is None,
        },
{
    m.get(ip).map(|b| copy_behavior(b.value()))
}

/// `DashMap::insert`: the behaviour becomes the one held for the address.
#[verifier::external_body]
pub(crate) fn set_behavior(
    m: &mut DashMap<String, DeviceBehavior>,
    ip: String,
    behavior: DeviceBehavior,
)
    ensures
        behaviors_by_ip(*final(m)) == behaviors_by_ip(*old(m)).insert(ip@, behavior@),
{
    m.insert(ip, behavior);
}

/// `DashMap::iter`: each address with its behaviour, copied, once, in an order that is
/// not known.
#[verifier::external_body]
pub(crate) fn behavior_entries(m: &DashMap<String, DeviceBehavior>) -> (r: Vec<
    (String, DeviceBehavior),
>)
    ensures
        forall|k: Seq<char>| #[trigger] behaviors_by_ip(*m).contains_key(k) ==> exists|i: int|
            0 <= i < r@.len() && (#[trigger] r@[i]).0@ == k,
        forall|i: int|
            0 <= i < r@.len() ==> behaviors_by_ip(*m).contains_key((#[trigger] r@[i]).0@)
                && behaviors_by_ip(*m)[r@[i].0@] == r@[i].1@,
        forall|i: int, j: int|
            0 <= i < j < r@.len() ==> (#[trigger] r@[i]).0@ != (#[trigger] r@[j]).0@,
{
    m.iter().map(|e| (e.key().clone(), copy_behavior(e.value()))).collect()
}

// ---------------------------------------------------------------------------
// Findings
// ---------------------------------------------------------------------------

/// The finding that a map holds for each number.
pub uninterp spec fn intel_by_id(m: DashMap<u64, IntelligenceLog>) -> Map<u64, IntelModel>;

/// `DashMap::new`: a map that holds nothing.
#[verifier::external_body]
pub(crate) fn new_intel() -> (r: DashMap<u64, IntelligenceLog>)
    ensures
        intel_by_id(r).dom() == Set::<u64>::empty(),
{
    DashMap::new()
}

/// `DashMap::insert`: the finding becomes the one held for the number.
#[verifier::external_body]
pub(crate) fn set_intel(m: &mut DashMap<u64, IntelligenceLog>, id: u64, log: IntelligenceLog)
    ensures
        intel_by_id(*final(m)) == intel_by_id(*old(m)).insert(id, log@),
{
    m.insert(id, log);
}

/// `DashMap::remove`: nothing is held for the number.
#[verifier::external_body]
pub(crate) fn drop_intel(m: &mut DashMap<u64, IntelligenceLog>, id: u64)
    ensures
        intel_by_id(*final(m)) == intel_by_id(*old(m)).remove(id),
{
    m.remove(&id);
}

/// `DashMap::len`: how many findings there are.
#[verifier::external_body]
pub(crate) fn intel_count(m: &DashMap<u64, IntelligenceLog>) -> (r: usize)
    ensures
        r == intel_by_id(*m).dom().len(),
{
    m.len()
}

/// `DashMap::iter`: each number with its finding, copied, once, in an order that is not
/// known.
#[verifier::external_body]
pub(crate) fn intel_entries(m: &DashMap<u64, IntelligenceLog>) -> (r: Vec<(u64, IntelligenceLog)>)
    ensures
        forall|k: u64| #[trigger] intel_by_id(*m).contains_key(k) ==> exists|i: int|
            0 <= i < r@.len() && (#[trigger] r@[i]).0 == k,
        forall|i: int|
            0 <= i < r@.len() ==> intel_by_id(*m).contains_key((#[trigger] r@[i]).0)
                && intel_by_id(*m)[r@[i].0] == r@[i].1@,
        forall|i: int, j: int|
            0 <= i < j < r@.len() ==> (#[trigger] r@[i]).0 != (#[trigger] r@[j]).0,
{
    m.iter().map(|e| (*e.key(), copy_intel(e.value()))).collect()
}

// ---------------------------------------------------------------------------
// Names
// ---------------------------------------------------------------------------

/// The names that a map holds.
pub uninterp spec fn names_in(m: DashMap<String, ()>) -> Set<Seq<char>>;

/// `DashMap::new`: a map that holds nothing.
#[verifier::external_body]
pub(crate) fn new_names() -> (r: DashMap<String, ()>)
    ensures
        names_in(r) == Set::<Seq<char>>::empty(),
{
    DashMap::new()
}

/// `DashMap::contains_key`: whether the name is there.
#[verifier::external_body]
pub(crate) fn has_name(m: &DashMap<String, ()>, name: &str) -> (r: bool)
    ensures
        r == names_in(*m).contains(name@),
{
    m.contains_key(name)
}

/// `DashMap::insert`: the name is there.
#[verifier::external_body]
pub(crate) fn set_name(m: &mut DashMap<String, ()>, name: String)
    ensures
        names_in(*final(m)) == names_in(*old(m)).insert(name@),
{
    m.insert(name, ());
}

} // verus!
