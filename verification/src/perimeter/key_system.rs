//! Licence keys that list the devices they are used on.
use vstd::prelude::*;

use crate::clock::{
    chrono_parse_rfc3339, earlier, four_digit_year, rfc3339_text, rfc3339_time,
    WallClock, COMPACT_DATE_PATTERN,
};
use crate::key_system::{is_past, lies_before, SECS_PER_DAY};
use crate::table::Table;
use crate::tally::{
    lemma_count, lemma_count_insert, lemma_sum, lemma_sum_insert, list_count, list_sum, map_count,
    map_sum,
};
use crate::text::{contains_text, copy_texts, dec, decimal, push_text, views};

verus! {

/// The file that keys are kept in.
pub const KEYS_FILE: &'static str = "keys.json";

/// A licence key.
#[derive(Debug, Clone)]
pub struct LicenseKey {
    pub key: String,
    pub created_at: String,
    pub expires_at: String,
    pub max_devices: u32,
    pub features: Vec<String>,
    pub owner: String,
    pub devices: Vec<String>,
    pub active: bool,
}

/// What a licence key says.
pub ghost struct LicenseModel {
    pub key: Seq<char>,
    pub created_at: Seq<char>,
    pub expires_at: Seq<char>,
    pub max_devices: u32,
    pub features: Seq<Seq<char>>,
    pub owner: Seq<char>,
    pub devices: Seq<Seq<char>>,
    pub active: bool,
}

impl View for LicenseKey {
    type V = LicenseModel;

    open spec fn view(&self) -> LicenseModel {
        LicenseModel {
            key: self.key@,
            created_at: self.created_at@,
            expires_at: self.expires_at@,
            max_devices: self.max_devices,
            features: views(self.features@),
            owner: self.owner@,
            devices: views(self.devices@),
            active: self.active,
        }
    }
}

/// Numbers about all keys.
#[derive(Debug, Clone, Copy, PartialEq, Eq, Structural)]
pub struct KeySystemStats {
    pub total_keys: usize,
    pub active_keys: usize,
    pub expired_keys: usize,
    pub total_devices: u32,
    pub max_devices: u32,
}

/// The text of a key: a date, and the microseconds within the second.
pub open spec fn dated_key(date: Seq<char>, nanos: u32) -> Seq<char> {
    "ARLIAN-"@ + date + "-"@ + dec((nanos / 1000) as nat)
}

/// The text of a key that is made at a moment.
pub open spec fn key_text(made: WallClock) -> Seq<char> {
    dated_key(made.text(COMPACT_DATE_PATTERN@), made.nanos)
}

/// A new key.
pub open spec fn new_license(
    key: Seq<char>,
    max_devices: u32,
    features: Seq<Seq<char>>,
    owner: Seq<char>,
    made: WallClock,
    expires: WallClock,
) -> LicenseModel {
    LicenseModel {
        key,
        created_at: rfc3339_text(made.secs, made.nanos, made.offset),
        expires_at: rfc3339_text(expires.secs, expires.nanos, expires.offset),
        max_devices,
        features,
        owner,
        devices: Seq::empty(),
        active: true,
    }
}

/// Whether a key has expired at a moment; not if that cannot be read.
pub open spec fn has_expired(l: LicenseModel, now: WallClock) -> bool {
    lies_before(rfc3339_time(l.expires_at), (now.secs, now.nanos))
}

/// A key after a device asked to use it.
pub open spec fn license_asked(l: LicenseModel, device: Seq<char>, now: WallClock) -> (
    LicenseModel,
    bool,
) {
    asked_at(l, device, rfc3339_time(l.expires_at), (now.secs, now.nanos))
}

/// A key whose expiry was read as `end` after a device asked to use it, and whether it
/// may. An expired key is switched off; a key with a free place takes the device in, if
/// it is not there yet.
pub open spec fn asked_at(
    l: LicenseModel,
    device: Seq<char>,
    end: Option<(i64, u32)>,
    now: (i64, u32),
) -> (LicenseModel, bool) {
    if !l.active {
        (l, false)
    } else if lies_before(end, now) {
        (LicenseModel { active: false, ..l }, false)
    } else if l.devices.len() >= l.max_devices {
        (l, false)
    } else if l.devices.contains(device) {
        (l, true)
    } else {
        (LicenseModel { devices: l.devices.push(device), ..l }, true)
    }
}

/// The keys after a device asked to use one.
pub open spec fn device_asked(
    keys: Map<Seq<char>, LicenseModel>,
    key: Seq<char>,
    device: Seq<char>,
    now: WallClock,
) -> Map<Seq<char>, LicenseModel> {
    if keys.contains_key(key) {
        keys.insert(key, license_asked(keys[key], device, now).0)
    } else {
        keys
    }
}

/// Whether a device may use a key.
pub open spec fn device_allowed(
    keys: Map<Seq<char>, LicenseModel>,
    key: Seq<char>,
    device: Seq<char>,
    now: WallClock,
) -> bool {
    keys.contains_key(key) && license_asked(keys[key], device, now).1
}

/// Whether a key is in force: it is active, and its expiry can be read and lies ahead.
pub open spec fn in_force(l: LicenseModel, now: WallClock) -> bool {
    l.active && rfc3339_time(l.expires_at) is Some && !has_expired(l, now)
}

/// Whether an active key has expired.
pub open spec fn lapsed(l: LicenseModel, now: WallClock) -> bool {
    l.active && has_expired(l, now)
}

/// On how many devices a key in force is used.
pub open spec fn devices_used(l: LicenseModel, now: WallClock) -> nat {
    if in_force(l, now) {
        l.devices.len() % 0x1_0000_0000
    } else {
        0
    }
}

/// On how many devices a key in force can be used.
pub open spec fn devices_possible(l: LicenseModel, now: WallClock) -> nat {
    if in_force(l, now) {
        l.max_devices as nat
    } else {
        0
    }
}

/// On how many devices the keys in force are used.
pub open spec fn total_used(keys: Map<Seq<char>, LicenseModel>, now: WallClock) -> nat {
    map_sum(keys, |l: LicenseModel| devices_used(l, now))
}

/// On how many devices the keys in force can be used.
pub open spec fn total_possible(keys: Map<Seq<char>, LicenseModel>, now: WallClock) -> nat {
    map_sum(keys, |l: LicenseModel| devices_possible(l, now))
}

/// How many keys are in force.
pub open spec fn in_force_count(keys: Map<Seq<char>, LicenseModel>, now: WallClock) -> nat {
    map_count(keys, |l: LicenseModel| in_force(l, now))
}

/// How many active keys have expired.
pub open spec fn lapsed_count(keys: Map<Seq<char>, LicenseModel>, now: WallClock) -> nat {
    map_count(keys, |l: LicenseModel| lapsed(l, now))
}

/// The keys of a list of entries: of two for the same key the later one holds.
pub open spec fn entries_loaded(e: Seq<(String, LicenseKey)>) -> Map<Seq<char>, LicenseModel>
    decreases e.len(),
{
    if e.len() == 0 {
        Map::empty()
    } else {
        entries_loaded(e.drop_last()).insert(e.last().0@, e.last().1@)
    }
}

/// A copy of a key.
pub fn copy_license(l: &LicenseKey) -> (r: LicenseKey)
    ensures
        r@ == l@,
{
    LicenseKey {
        key: l.key.as_str().to_owned(),
        created_at: l.created_at.as_str().to_owned(),
        expires_at: l.expires_at.as_str().to_owned(),
        max_devices: l.max_devices,
        features: copy_texts(&l.features),
        owner: l.owner.as_str().to_owned(),
        devices: copy_texts(&l.devices),
        active: l.active,
    }
}

/// Lets a device use a key whose expiry was read as `end`, if it may: says whether it
/// may, and whether the key has changed.
pub fn ask_license(
    license: &mut LicenseKey,
    device: &str,
    end: Option<(i64, u32)>,
    now: (i64, u32),
) -> (r: (bool, bool))
    ensures
        final(license)@ == asked_at(old(license)@, device@, end, now).0,
        r.0 == asked_at(old(license)@, device@, end, now).1,
        r.1 == (final(license)@ != old(license)@),
{
    let ghost before = license@;
    if !license.active {
        return (false, false);
    }
    if is_past(end, now) {
        license.active = false;
        assert(license@.active != before.active);
        return (false, true);
    }
    assert(views(license.devices@).len() == license.devices@.len());
    if license.devices.len() >= license.max_devices as usize {
        return (false, false);
    }
    if contains_text(&license.devices, device) {
        return (true, false);
    }
    push_text(&mut license.devices, device.to_owned());
    assert(license@.devices.len() != before.devices.len());
    (true, true)
}

/// The text of a key that is made on a date, as the local clock shows it, so many
/// nanoseconds into the second.
pub fn key_of_date(date: &str, nanos: u32) -> (r: String)
    ensures
        r@ == dated_key(date@, nanos),
{
    let mut key = "ARLIAN-".to_owned();
    key.append(date);
    key.append("-");
    key.append(decimal((nanos / 1000) as u64).as_str());
    key
}

/// The keys.
pub struct KeySystem {
    keys: Table<String, LicenseKey>,
}

impl View for KeySystem {
    type V = Map<Seq<char>, LicenseModel>;

    closed spec fn view(&self) -> Map<Seq<char>, LicenseModel> {
        self.keys@
    }
}

impl KeySystem {
    /// Each key is held once.
    pub closed spec fn wf(&self) -> bool {
        self.keys.wf()
    }

    /// A key system with the saved keys.
    pub fn new(saved: Vec<(String, LicenseKey)>) -> (r: Self)
        ensures
            r.wf(),
            r@ == entries_loaded(saved@),
    {
        let mut keys: Table<String, LicenseKey> = Table::new();
        let mut i: usize = 0;
        assert(saved@.take(0) =~= Seq::<(String, LicenseKey)>::empty());
        while i < saved.len()
            invariant
                i <= saved.len(),
                keys.wf(),
                keys@ == entries_loaded(saved@.take(i as int)),
            decreases saved.len() - i,
        {
            assert(saved@.take(i + 1).drop_last() =~= saved@.take(i as int));
            keys.insert(saved[i].0.as_str().to_owned(), copy_license(&saved[i].1));
            i += 1;
        }
        assert(saved@.take(i as int) =~= saved@);
        KeySystem { keys }
    }

    /// Makes a key at the moment `made` that expires `days` days later, at which the
    /// local offset from UTC is `expiry_offset`, and adds it. Where the year has four
    /// digits and the offset is whole minutes, the expiry on the key reads back.
    pub fn generate_key(
        &mut self,
        days: u32,
        max_devices: u32,
        features: Vec<String>,
        owner: String,
        made: &WallClock,
        expiry_offset: i32,
    ) -> (r: String)
        requires
            old(self).wf(),
            made.wf(),
            made.secs >= 0,
            made.later(days * SECS_PER_DAY, expiry_offset).wf(),
        ensures
            final(self).wf(),
            r@ == key_text(*made),
            final(self)@ == old(self)@.insert(
                r@,
                new_license(
                    r@,
                    max_devices,
                    views(features@),
                    owner@,
                    *made,
                    made.later(days * SECS_PER_DAY, expiry_offset),
                ),
            ),
            final(self)@[r@].expires_at == rfc3339_text(
                (made.secs + days * 86_400) as i64,
                made.nanos,
                expiry_offset,
            ),
            four_digit_year(made.later(days * SECS_PER_DAY, expiry_offset).local() as int)
                && expiry_offset % 60 == 0 ==> rfc3339_time(final(self)@[r@].expires_at) == Some(
                (made.later(days * SECS_PER_DAY, expiry_offset).secs, made.nanos),
            ),
    {
        let key = key_of_date(made.format(COMPACT_DATE_PATTERN).as_str(), made.nanos);
        assert(days * SECS_PER_DAY <= 0xffff_ffff * 86_400);
        let expires = WallClock {
            secs: made.secs + days as i64 * SECS_PER_DAY as i64,
            nanos: made.nanos,
            offset: expiry_offset,
        };
        let license = LicenseKey {
            key: key.as_str().to_owned(),
            created_at: made.rfc3339(),
            expires_at: expires.rfc3339(),
            max_devices,
            features,
            owner,
            devices: Vec::new(),
            active: true,
        };
        assert(license@.devices =~= Seq::empty());
        self.keys.insert(key.as_str().to_owned(), license);
        key
    }

    /// Lets a device use a key, if it may: says whether it may, and whether the keys have
    /// changed.
    pub fn activate_device(&mut self, key: &str, device_id: &str, now: &WallClock) -> (r: (
        bool,
        bool,
    ))
        requires
            old(self).wf(),
        ensures
            final(self).wf(),
            r.0 == device_allowed(old(self)@, key@, device_id@, *now),
            final(self)@ == device_asked(old(self)@, key@, device_id@, *now),
            r.1 == (final(self)@ != old(self)@),
    {
        let ghost m = self@;
        let ghost before = self.keys;
        match self.keys.position(&key.to_owned()) {
            None => (false, false),
            Some(i) => {
                let license = self.keys.value_mut(i);
                let ghost l = license@;
                let end = chrono_parse_rfc3339(license.expires_at.as_str());
                let moment = (now.secs, now.nanos);
                let (allowed, changed) = ask_license(license, device_id, end, moment);
                let ghost v = *license;
                proof {
                    Table::lemma_set(before, self.keys, i as int, v);
                    assert(m[key@] == l);
                    assert(self@[key@] == v@);
                    if !changed {
                        assert(self@ =~= m);
                    }
                }
                (allowed, changed)
            },
        }
    }

    /// How many keys there are.
    pub fn get_key_count(&self) -> (r: usize)
        requires
            self.wf(),
        ensures
            r == self@.dom().len(),
    {
        self.keys.len()
    }

    /// On how many devices the keys in force are used and can be used.
    pub fn device_totals(&self, now: &WallClock) -> (r: (u128, u128))
        requires
            self.wf(),
        ensures
            r.0 == total_used(self@, *now),
            r.1 == total_possible(self@, *now),
    {
        let ghost m = self.keys@;
        let ghost ks = self.keys.keys();
        let ghost f = |l: LicenseModel| devices_used(l, *now);
        let ghost g = |l: LicenseModel| devices_possible(l, *now);
        let n: usize = self.keys.len();
        let mut used: u128 = 0;
        let mut possible: u128 = 0;
        let mut i: usize = 0;
        assert(ks.take(0) =~= Seq::<Seq<char>>::empty());
        while i < n
            invariant
                i <= n,
                n == ks.len(),
                self.wf(),
                m == self.keys@,
                ks == self.keys.keys(),
                f == |l: LicenseModel| devices_used(l, *now),
                g == |l: LicenseModel| devices_possible(l, *now),
                used == list_sum(m, ks.take(i as int), f),
                possible == list_sum(m, ks.take(i as int), g),
                used <= i * 0x1_0000_0000,
                possible <= i * 0x1_0000_0000,
            decreases n - i,
        {
            proof {
                self.keys.lemma_at(i as int);
                assert(ks.take(i + 1).drop_last() =~= ks.take(i as int));
                assert((i + 1) * 0x1_0000_0000 == i * 0x1_0000_0000 + 0x1_0000_0000)
                    by (nonlinear_arith);
                assert(i * 0x1_0000_0000 <= 0xffff_ffff_ffff_ffff * 0x1_0000_0000)
                    by (nonlinear_arith)
                    requires
                        i <= 0xffff_ffff_ffff_ffff,
                ;
            }
            let l = self.keys.value_at(i);
            assert(views(l.devices@).len() == l.devices@.len());
            if l.active {
                let end = chrono_parse_rfc3339(l.expires_at.as_str());
                if end.is_some() {
                    if !is_past(end, (now.secs, now.nanos)) {
                        used = used + l.devices.len() as u128 % 0x1_0000_0000;
                        possible = possible + l.max_devices as u128;
                    }
                }
            }
            i += 1;
        }
        proof {
            assert(ks.take(i as int) =~= ks);
            self.keys.lemma_len();
            assert(ks.to_set() =~= m.dom());
            lemma_sum(m, ks, f);
            lemma_sum(m, ks, g);
            assert(total_used(self@, *now) == map_sum(m, f));
            assert(total_possible(self@, *now) == map_sum(m, g));
        }
        (used, possible)
    }

    /// Numbers about all keys.
    pub fn get_stats(&self, now: &WallClock) -> (r: KeySystemStats)
        requires
            self.wf(),
            total_used(self@, *now) <= u32::MAX,
            total_possible(self@, *now) <= u32::MAX,
        ensures
            r.total_keys == self@.dom().len(),
            r.active_keys == in_force_count(self@, *now),
            r.expired_keys == lapsed_count(self@, *now),
            r.total_devices == total_used(self@, *now),
            r.max_devices == total_possible(self@, *now),
    {
        let ghost m = self.keys@;
        let ghost ks = self.keys.keys();
        let ghost p = |l: LicenseModel| in_force(l, *now);
        let ghost q = |l: LicenseModel| lapsed(l, *now);
        let n: usize = self.keys.len();
        let mut active: usize = 0;
        let mut expired: usize = 0;
        let mut i: usize = 0;
        assert(ks.take(0) =~= Seq::<Seq<char>>::empty());
        while i < n
            invariant
                i <= n,
                n == ks.len(),
                self.wf(),
                m == self.keys@,
                ks == self.keys.keys(),
                p == |l: LicenseModel| in_force(l, *now),
                q == |l: LicenseModel| lapsed(l, *now),
                active == list_count(m, ks.take(i as int), p),
                expired == list_count(m, ks.take(i as int), q),
                active <= i,
                expired <= i,
            decreases n - i,
        {
            proof {
                self.keys.lemma_at(i as int);
                assert(ks.take(i + 1).drop_last() =~= ks.take(i as int));
            }
            let l = self.keys.value_at(i);
            if l.active {
                let end = chrono_parse_rfc3339(l.expires_at.as_str());
                if end.is_some() {
                    if is_past(end, (now.secs, now.nanos)) {
                        expired += 1;
                    } else {
                        active += 1;
                    }
                }
            }
            i += 1;
        }
        proof {
            assert(ks.take(i as int) =~= ks);
            self.keys.lemma_len();
            assert(ks.to_set() =~= m.dom());
            lemma_count(m, ks, p);
            lemma_count(m, ks, q);
            assert(in_force_count(self@, *now) == map_count(m, p));
            assert(lapsed_count(self@, *now) == map_count(m, q));
        }
        let (used, possible) = self.device_totals(now);
        KeySystemStats {
            total_keys: n,
            active_keys: active,
            expired_keys: expired,
            total_devices: used as u32,
            max_devices: possible as u32,
        }
    }

    /// All keys, to be saved.
    pub fn saved_keys(&self) -> (r: Vec<(String, LicenseKey)>)
        requires
            self.wf(),
        ensures
            entries_loaded(r@) == self@,
            r@.len() == self@.dom().len(),
    {
        let ghost m = self.keys@;
        let ghost ks = self.keys.keys();
        let n: usize = self.keys.len();
        let mut out: Vec<(String, LicenseKey)> = Vec::new();
        let mut i: usize = 0;
        assert(entries_loaded(out@) =~= m.restrict(ks.take(0).to_set()));
        while i < n
            invariant
                i <= n,
                n == ks.len(),
                self.wf(),
                m == self.keys@,
                ks == self.keys.keys(),
                out.len() == i,
                entries_loaded(out@) == m.restrict(ks.take(i as int).to_set()),
            decreases n - i,
        {
            let ghost before = out@;
            let entry = (
                self.keys.key_at(i).as_str().to_owned(),
                copy_license(self.keys.value_at(i)),
            );
            out.push(entry);
            proof {
                self.keys.lemma_at(i as int);
                assert(out@.drop_last() =~= before);
                let shorter = ks.take(i as int);
                let longer = ks.take(i + 1);
                assert(longer =~= shorter.push(ks[i as int]));
                assert forall|x: Seq<char>| longer.to_set().contains(x)
                    <==> shorter.to_set().insert(ks[i as int]).contains(x) by {
                    if shorter.contains(x) {
                        let j = shorter.index_of(x);
                        assert(longer[j] == x);
                    }
                    if x == ks[i as int] {
                        assert(longer[i as int] == x);
                    }
                }
                assert(entries_loaded(out@) =~= m.restrict(longer.to_set()));
            }
            i += 1;
        }
        proof {
            assert(ks.take(i as int) =~= ks);
            assert(ks.to_set() =~= m.dom());
            assert(m.restrict(ks.to_set()) =~= m);
        }
        out
    }
}

// ---------------------------------------------------------------------------
// Laws
// ---------------------------------------------------------------------------

/// No key is used on more devices than it allows.
pub open spec fn within_limits(keys: Map<Seq<char>, LicenseModel>) -> bool {
    forall|k: Seq<char>| #[trigger]
        keys.contains_key(k) ==> keys[k].devices.len() <= keys[k].max_devices
}

/// Asking to use a key keeps every key within its limit.
pub proof fn law_limits_are_kept(
    keys: Map<Seq<char>, LicenseModel>,
    key: Seq<char>,
    device: Seq<char>,
    now: WallClock,
)
    requires
        within_limits(keys),
    ensures
        within_limits(device_asked(keys, key, device, now)),
{
}

/// No device is listed twice under a key.
pub proof fn law_devices_are_listed_once(l: LicenseModel, device: Seq<char>, now: WallClock)
    requires
        l.devices.no_duplicates(),
    ensures
        license_asked(l, device, now).0.devices.no_duplicates(),
{
}

/// A device that may use a key is listed under it.
pub proof fn law_allowed_device_is_listed(
    keys: Map<Seq<char>, LicenseModel>,
    key: Seq<char>,
    device: Seq<char>,
    now: WallClock,
)
    requires
        device_allowed(keys, key, device, now),
    ensures
        device_asked(keys, key, device, now)[key].devices.contains(device),
{
    let l = keys[key];
    if !l.devices.contains(device) {
        assert(l.devices.push(device)[l.devices.len() as int] == device);
    }
}

/// A key that has expired is refused, is switched off by the attempt, and stays refused
/// at every moment, for every device.
pub proof fn law_expired_key_is_switched_off(
    keys: Map<Seq<char>, LicenseModel>,
    key: Seq<char>,
    device: Seq<char>,
    now: WallClock,
    other: Seq<char>,
    later: WallClock,
)
    requires
        keys.contains_key(key),
        has_expired(keys[key], now),
    ensures
        !device_allowed(keys, key, device, now),
        !device_asked(keys, key, device, now)[key].active,
        !device_allowed(device_asked(keys, key, device, now), key, other, later),
{
}

/// A new key that allows a device at all lets the first one in until its expiry, and
/// nobody after it.
pub proof fn law_new_key_is_valid(
    keys: Map<Seq<char>, LicenseModel>,
    key: Seq<char>,
    max_devices: u32,
    features: Seq<Seq<char>>,
    owner: Seq<char>,
    made: WallClock,
    expires: WallClock,
    device: Seq<char>,
    now: WallClock,
)
    requires
        max_devices > 0,
        rfc3339_time(rfc3339_text(expires.secs, expires.nanos, expires.offset)) == Some(
            (expires.secs, expires.nanos),
        ),
    ensures
        device_allowed(
            keys.insert(key, new_license(key, max_devices, features, owner, made, expires)),
            key,
            device,
            now,
        ) <==> !earlier((expires.secs, expires.nanos), (now.secs, now.nanos)),
{
}

/// What becomes of a device that asks for a key: a key that is not active refuses; one that
/// has expired refuses and is no longer active; one with no device left refuses every
/// device, those on its list too; any other allows the device, and lists it if it is not
/// listed. An expiry that cannot be read never comes. Nothing else changes.
pub proof fn law_key_answers(
    l: LicenseModel,
    device: Seq<char>,
    end: Option<(i64, u32)>,
    now: (i64, u32),
)
    ensures
        ({
            let (after, allowed) = asked_at(l, device, end, now);
            let over = match end {
                Some(t) => t.0 < now.0 || (t.0 == now.0 && t.1 < now.1),
                None => false,
            };
            let room = l.devices.len() < l.max_devices;
            let listed = exists|i: int| 0 <= i < l.devices.len() && #[trigger] l.devices[i]
                == device;
            &&& allowed <==> l.active && !over && room
            &&& after.active <==> l.active && !over
            &&& allowed && !listed ==> after.devices == l.devices.push(device)
            &&& !allowed || listed ==> after.devices == l.devices
            &&& after.key == l.key && after.created_at == l.created_at && after.expires_at
                == l.expires_at && after.max_devices == l.max_devices && after.features
                == l.features && after.owner == l.owner
        }),
{
}

/// A device is allowed by its own key alone, and changes no other key; a key that is not on
/// record allows none.
pub proof fn law_keys_are_apart(
    keys: Map<Seq<char>, LicenseModel>,
    key: Seq<char>,
    device: Seq<char>,
    now: WallClock,
    other: Seq<char>,
)
    ensures
        ({
            let after = device_asked(keys, key, device, now);
            let (l, allowed) = asked_at(
                keys[key],
                device,
                rfc3339_time(keys[key].expires_at),
                (now.secs, now.nanos),
            );
            &&& !keys.contains_key(key) ==> after == keys && !device_allowed(keys, key, device, now)
            &&& keys.contains_key(key) ==> after[key] == l && (device_allowed(
                keys,
                key,
                device,
                now,
            ) <==> allowed)
            &&& after.contains_key(other) <==> keys.contains_key(other)
            &&& other != key ==> after[other] == keys[other]
        }),
{
}

/// Which keys count in the statistics: an active key whose expiry can be read and has not
/// passed is in force, and an active key whose expiry has passed has lapsed.
pub proof fn law_keys_in_force(l: LicenseModel, now: WallClock)
    ensures
        ({
            let end = rfc3339_time(l.expires_at);
            let over = match end {
                Some(t) => t.0 < now.secs || (t.0 == now.secs && t.1
                < now.nanos),
                None => false,
            };
            &&& in_force(l, now) <==> l.active && end is Some && !over
            &&& lapsed(l, now) <==> l.active && over
            &&& in_force(l, now) && l.devices.len() < 0x1_0000_0000 ==> devices_used(l, now)
                == l.devices.len()
            &&& in_force(l, now) ==> devices_possible(l, now) == l.max_devices
            &&& !in_force(l, now) ==> devices_used(l, now) == 0 && devices_possible(l, now) == 0
        }),
{
}

/// The statistics count each key once: a key that was not on record adds its devices, and
/// one to the keys in force or the lapsed keys if it is one.
pub proof fn law_statistics_add_up(
    keys: Map<Seq<char>, LicenseModel>,
    key: Seq<char>,
    l: LicenseModel,
    now: WallClock,
)
    requires
        keys.dom().finite(),
        !keys.contains_key(key),
    ensures
        ({
            let more = keys.insert(key, l);
            &&& total_used(more, now) == total_used(keys, now) + devices_used(l, now)
            &&& total_possible(more, now) == total_possible(keys, now) + devices_possible(l, now)
            &&& in_force_count(more, now) == in_force_count(keys, now) + (if in_force(l, now) {
                1int
            } else {
                0
            })
            &&& lapsed_count(more, now) == lapsed_count(keys, now) + (if lapsed(l, now) {
                1int
            } else {
                0
            })
        }),
{
    lemma_sum_insert(keys, key, l, |x: LicenseModel| devices_used(x, now));
    lemma_sum_insert(keys, key, l, |x: LicenseModel| devices_possible(x, now));
    lemma_count_insert(keys, key, l, |x: LicenseModel| in_force(x, now));
    lemma_count_insert(keys, key, l, |x: LicenseModel| lapsed(x, now));
}

/// A new key is active and lists no device; it shows when it was made and when it expires.
/// Its name ends in the microseconds of the second in which it was made.
pub proof fn law_new_key_says(
    key: Seq<char>,
    max_devices: u32,
    features: Seq<Seq<char>>,
    owner: Seq<char>,
    made: WallClock,
    expires: WallClock,
)
    ensures
        ({
            let l = new_license(key, max_devices, features, owner, made, expires);
            &&& l.key == key && l.max_devices == max_devices && l.features == features && l.owner
                == owner
            &&& l.active && l.devices.len() == 0
            &&& l.created_at == rfc3339_text(made.secs, made.nanos, made.offset)
            &&& l.expires_at == rfc3339_text(expires.secs, expires.nanos, expires.offset)
            &&& forall|micros: nat|
                micros * 1000 <= made.nanos < micros * 1000 + 1000 ==> key_text(made)
                    == "ARLIAN-"@ + made.text("%Y%m%d"@) + "-"@ + #[trigger] dec(micros)
        }),
{
}

/// Of two saved entries for one key the later one counts.
pub proof fn law_last_entry_counts(e: Seq<(String, LicenseKey)>, x: (String, LicenseKey))
    ensures
        entries_loaded(e.push(x)) == entries_loaded(e).insert(x.0@, x.1@),
        entries_loaded(Seq::empty()) == Map::<Seq<char>, LicenseModel>::empty(),
{
    assert(e.push(x).drop_last() =~= e);
}

} // verus!
