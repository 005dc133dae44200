//! Licence keys that count the devices they are used on.
use vstd::prelude::*;

use crate::clock::{
    chrono_parse_zoned, civil_text, earlier, four_digit_year, is_earlier, zoned_time, WallClock,
    SECONDS_PATTERN, ZONED_PATTERN,
};
use crate::table::Table;
use crate::tally::{
    lemma_count, lemma_count_insert, lemma_sum, lemma_sum_insert, list_count, list_sum, map_count,
    map_sum,
};
use crate::text::{copy_texts, hex4_upper, hex_bytes, hex_of_bytes, push_hex4_upper, views};

verus! {

/// The file that keys are kept in.
pub const KEYS_FILE: &'static str = "logs/keys/keys.json";

/// The file that the use of keys is noted in.
pub const USAGE_FILE: &'static str = "logs/keys/usage.json";

/// The number of seconds in a day.
pub const SECS_PER_DAY: u64 = 86_400;

/// Why a question about a key has no answer.
#[derive(Debug, Clone, Copy, PartialEq, Eq, Structural)]
pub enum KeyError {
    /// The time at which the key expires cannot be read.
    UnreadableExpiry,
}

/// A licence key.
#[derive(Debug, Clone)]
pub struct LicenseKey {
    pub key: String,
    pub created_at: String,
    pub expires_at: String,
    pub max_devices: u32,
    pub current_devices: u32,
    pub features: Vec<String>,
    pub is_active: bool,
    pub owner: String,
    pub last_used: Option<String>,
}

/// What a licence key says.
pub ghost struct LicenseModel {
    pub key: Seq<char>,
    pub created_at: Seq<char>,
    pub expires_at: Seq<char>,
    pub max_devices: u32,
    pub current_devices: u32,
    pub features: Seq<Seq<char>>,
    pub is_active: bool,
    pub owner: Seq<char>,
    pub last_used: Option<Seq<char>>,
}

impl View for LicenseKey {
    type V = LicenseModel;

    open spec fn view(&self) -> LicenseModel {
        LicenseModel {
            key: self.key@,
            created_at: self.created_at@,
            expires_at: self.expires_at@,
            max_devices: self.max_devices,
            current_devices: self.current_devices,
            features: views(self.features@),
            is_active: self.is_active,
            owner: self.owner@,
            last_used: match self.last_used {
                Some(t) => Some(t@),
                None => None,
            },
        }
    }
}

/// One use of a key. The key itself is not noted, only its digest.
#[derive(Debug, Clone)]
pub struct KeyUsage {
    pub key_hash: String,
    pub ip: String,
    pub timestamp: String,
    pub action: String,
}

/// What is noted of one use of a key.
pub ghost struct UsageModel {
    pub key_hash: Seq<char>,
    pub ip: Seq<char>,
    pub timestamp: Seq<char>,
    pub action: Seq<char>,
}

impl View for KeyUsage {
    type V = UsageModel;

    open spec fn view(&self) -> UsageModel {
        UsageModel {
            key_hash: self.key_hash@,
            ip: self.ip@,
            timestamp: self.timestamp@,
            action: self.action@,
        }
    }
}

/// What a list of uses says.
pub open spec fn usage_views(s: Seq<KeyUsage>) -> Seq<UsageModel> {
    s.map_values(|u: KeyUsage| u@)
}

/// Numbers about all keys.
#[derive(Debug, Clone, Copy, PartialEq, Eq, Structural)]
pub struct KeyStats {
    pub total_keys: usize,
    pub active_keys: usize,
    pub expired_keys: usize,
    pub total_devices: u32,
    pub max_devices: u32,
}

/// What the key system knows.
pub ghost struct KeyModel {
    pub keys: Map<Seq<char>, LicenseModel>,
    pub usage: Seq<UsageModel>,
}

/// The SHA-256 digest of the bytes of a text.
pub uninterp spec fn sha256(text: Seq<char>) -> Seq<u8>;

/// `sha2::Sha256::digest` of the bytes of a text: 32 bytes.
#[verifier::external_body]
fn sha256_of(text: &str) -> (r: Vec<u8>)
    ensures
        r@ == sha256(text@),
        r@.len() == 32,
{
    <sha2::Sha256 as sha2::Digest>::digest(text.as_bytes()).to_vec()
}

/// `rand::Rng::gen`: any number of sixteen bits.
#[verifier::external_body]
fn random_u16() -> (r: u16) {
    rand::Rng::gen::<u16>(&mut rand::thread_rng())
}

/// The text of a key: four groups of four upper-case hexadecimal digits.
pub open spec fn key_text(a: u16, b: u16, c: u16, d: u16) -> Seq<char> {
    hex4_upper(a as nat) + seq!['-'] + hex4_upper(b as nat) + seq!['-'] + hex4_upper(c as nat)
        + seq!['-'] + hex4_upper(d as nat)
}

/// The text of a key.
pub fn format_key(a: u16, b: u16, c: u16, d: u16) -> (r: String)
    ensures
        r@ == key_text(a, b, c, d),
{
    let mut s = String::new();
    push_hex4_upper(&mut s, a);
    assert(s@ =~= hex4_upper(a as nat));
    s.push('-');
    assert(s@ =~= hex4_upper(a as nat) + seq!['-']);
    push_hex4_upper(&mut s, b);
    let ghost two = s@;
    s.push('-');
    assert(s@ =~= two + seq!['-']);
    push_hex4_upper(&mut s, c);
    let ghost three = s@;
    s.push('-');
    assert(s@ =~= three + seq!['-']);
    push_hex4_upper(&mut s, d);
    s
}

/// When a key expires. The time on it is read as UTC.
pub open spec fn expiry(l: LicenseModel) -> Option<(i64, u32)> {
    zoned_time(l.expires_at + " +0000"@, ZONED_PATTERN@)
}

/// Whether a moment that was read as `end` lies before `now`; not if it cannot be read.
pub open spec fn lies_before(end: Option<(i64, u32)>, now: (i64, u32)) -> bool {
    match end {
        Some(t) => earlier(t, now),
        None => false,
    }
}

/// Whether a key has expired at a moment.
pub open spec fn has_expired(l: LicenseModel, now: WallClock) -> bool {
    lies_before(expiry(l), (now.secs, now.nanos))
}

/// Whether a key whose expiry was read as `end` can be used on one more device.
pub open spec fn verdict(
    l: LicenseModel,
    end: Option<(i64, u32)>,
    now: (i64, u32),
) -> Result<bool, KeyError> {
    if !l.is_active {
        Ok(false)
    } else if end is None {
        Err(KeyError::UnreadableExpiry)
    } else {
        Ok(!lies_before(end, now) && l.current_devices < l.max_devices)
    }
}

/// Whether a key can be used on one more device.
pub open spec fn validity(
    keys: Map<Seq<char>, LicenseModel>,
    key: Seq<char>,
    now: WallClock,
) -> Result<bool, KeyError> {
    if !keys.contains_key(key) {
        Ok(false)
    } else {
        verdict(keys[key], expiry(keys[key]), (now.secs, now.nanos))
    }
}

/// A new key.
pub open spec fn new_license(
    key: Seq<char>,
    max_devices: u32,
    features: Seq<Seq<char>>,
    owner: Seq<char>,
    created: WallClock,
    expires: WallClock,
) -> LicenseModel {
    LicenseModel {
        key,
        created_at: created.text(SECONDS_PATTERN@),
        expires_at: expires.text(SECONDS_PATTERN@),
        max_devices,
        current_devices: 0,
        features,
        is_active: true,
        owner,
        last_used: None,
    }
}

/// The key system after a key was asked to be used on one more device.
pub open spec fn activated(m: KeyModel, key: Seq<char>, ip: Seq<char>, now: WallClock) -> KeyModel {
    if validity(m.keys, key, now) == Ok::<bool, KeyError>(true) {
        let l = m.keys[key];
        KeyModel {
            keys: m.keys.insert(
                key,
                LicenseModel {
                    current_devices: (l.current_devices + 1) as u32,
                    last_used: Some(now.text(SECONDS_PATTERN@)),
                    ..l
                },
            ),
            usage: m.usage.push(
                UsageModel {
                    key_hash: hex_bytes(sha256(key)),
                    ip,
                    timestamp: now.text(SECONDS_PATTERN@),
                    action: "activate"@,
                },
            ),
        }
    } else {
        m
    }
}

/// The key system after a key was given up on one device.
pub open spec fn deactivated(m: KeyModel, key: Seq<char>) -> KeyModel {
    if m.keys.contains_key(key) && m.keys[key].current_devices > 0 {
        let l = m.keys[key];
        KeyModel {
            keys: m.keys.insert(
                key,
                LicenseModel { current_devices: (l.current_devices - 1) as u32, ..l },
            ),
            ..m
        }
    } else {
        m
    }
}

/// On how many devices the keys are used.
pub open spec fn devices_in_use(m: KeyModel) -> nat {
    map_sum(m.keys, |l: LicenseModel| l.current_devices as nat)
}

/// On how many devices the keys can be used.
pub open spec fn devices_allowed(m: KeyModel) -> nat {
    map_sum(m.keys, |l: LicenseModel| l.max_devices as nat)
}

/// How many keys are active.
pub open spec fn active_count(m: KeyModel) -> nat {
    map_count(m.keys, |l: LicenseModel| l.is_active)
}

/// How many keys have expired.
pub open spec fn expired_count(m: KeyModel, now: WallClock) -> nat {
    map_count(m.keys, |l: LicenseModel| has_expired(l, now))
}

/// The keys, and the use made of them.
pub struct KeySystem {
    keys: Table<String, LicenseKey>,
    usage_log: Vec<KeyUsage>,
}

impl View for KeySystem {
    type V = KeyModel;

    closed spec fn view(&self) -> KeyModel {
        KeyModel { keys: self.keys@, usage: usage_views(self.usage_log@) }
    }
}

/// The keys of a list of entries: of two for the same key the later one holds.
pub open spec fn entries_loaded(e: Seq<(String, LicenseKey)>) -> Map<Seq<char>, LicenseModel>
    decreases e.len(),
{
    if e.len() == 0 {
        Map::empty()
    } else {
        entries_loaded(e.drop_last()).insert(e.last().0@, e.last().1@)
    }
}

/// A copy of a key.
pub fn copy_license(l: &LicenseKey) -> (r: LicenseKey)
    ensures
        r@ == l@,
{
    LicenseKey {
        key: l.key.as_str().to_owned(),
        created_at: l.created_at.as_str().to_owned(),
        expires_at: l.expires_at.as_str().to_owned(),
        max_devices: l.max_devices,
        current_devices: l.current_devices,
        features: copy_texts(&l.features),
        is_active: l.is_active,
        owner: l.owner.as_str().to_owned(),
        last_used: match &l.last_used {
            Some(t) => Some(t.as_str().to_owned()),
            None => None,
        },
    }
}

/// When a key expires.
fn read_expiry(l: &LicenseKey) -> (r: Option<(i64, u32)>)
    ensures
        r == expiry(l@),
{
    let mut s = l.expires_at.as_str().to_owned();
    s.append(" +0000");
    chrono_parse_zoned(s.as_str(), ZONED_PATTERN)
}

/// Whether a moment that was read as `end` lies before `now`; not if it cannot be read.
pub fn is_past(end: Option<(i64, u32)>, now: (i64, u32)) -> (r: bool)
    ensures
        r == lies_before(end, now),
{
    match end {
        Some(t) => is_earlier(t, now),
        None => false,
    }
}

/// Whether a key whose expiry was read as `end` can be used on one more device.
pub fn judge_license(l: &LicenseKey, end: Option<(i64, u32)>, now: (i64, u32)) -> (r: Result<
    bool,
    KeyError,
>)
    ensures
        r == verdict(l@, end, now),
{
    if !l.is_active {
        return Ok(false);
    }
    if end.is_none() {
        return Err(KeyError::UnreadableExpiry);
    }
    Ok(!is_past(end, now) && l.current_devices < l.max_devices)
}

impl KeySystem {
    /// Each key is held once.
    pub closed spec fn wf(&self) -> bool {
        self.keys.wf()
    }

    /// A key system with the saved keys, and no use of them on record.
    pub fn new(saved: Vec<(String, LicenseKey)>) -> (r: Self)
        ensures
            r.wf(),
            r@ == (KeyModel { keys: entries_loaded(saved@), usage: Seq::empty() }),
    {
        let mut keys: Table<String, LicenseKey> = Table::new();
        let mut i: usize = 0;
        assert(saved@.take(0) =~= Seq::<(String, LicenseKey)>::empty());
        while i < saved.len()
            invariant
                i <= saved.len(),
                keys.wf(),
                keys@ == entries_loaded(saved@.take(i as int)),
            decreases saved.len() - i,
        {
            assert(saved@.take(i + 1).drop_last() =~= saved@.take(i as int));
            keys.insert(saved[i].0.as_str().to_owned(), copy_license(&saved[i].1));
            i += 1;
        }
        assert(saved@.take(i as int) =~= saved@);
        let r = KeySystem { keys, usage_log: Vec::new() };
        assert(r@.usage =~= Seq::empty());
        r
    }

    /// Adds a key that was made at the moment `created` and expires `days_valid` days
    /// later, at which the local offset from UTC is `expiry_offset`. What the local clock
    /// shows then is written on the key, and read back as UTC.
    pub fn add_key(
        &mut self,
        key: String,
        days_valid: u32,
        max_devices: u32,
        features: Vec<String>,
        owner: String,
        created: &WallClock,
        expiry_offset: i32,
    )
        requires
            old(self).wf(),
            created.wf(),
            created.later(days_valid * SECS_PER_DAY, expiry_offset).wf(),
        ensures
            final(self).wf(),
            final(self)@ == (KeyModel {
                keys: old(self)@.keys.insert(
                    key@,
                    new_license(
                        key@,
                        max_devices,
                        views(features@),
                        owner@,
                        *created,
                        created.later(days_valid * SECS_PER_DAY, expiry_offset),
                    ),
                ),
                ..old(self)@
            }),
            final(self)@.keys[key@].expires_at == civil_text(
                (created.secs + days_valid * 86_400 + expiry_offset) as i64,
                created.nanos,
                "%Y-%m-%d %H:%M:%S"@,
            ),
            four_digit_year(
                created.later(days_valid * SECS_PER_DAY, expiry_offset).local() as int,
            ) ==> expiry(final(self)@.keys[key@]) == Some(
                (created.later(days_valid * SECS_PER_DAY, expiry_offset).local(), 0u32),
            ),
    {
        assert(days_valid * SECS_PER_DAY <= 0xffff_ffff * 86_400);
        let expires = WallClock {
            secs: created.secs + days_valid as i64 * SECS_PER_DAY as i64,
            nanos: created.nanos,
            offset: expiry_offset,
        };
        let license = LicenseKey {
            key: key.as_str().to_owned(),
            created_at: created.format(SECONDS_PATTERN),
            expires_at: expires.format(SECONDS_PATTERN),
            max_devices,
            current_devices: 0,
            features,
            is_active: true,
            owner,
            last_used: None,
        };
        self.keys.insert(key, license);
    }

    /// Makes a key at random and adds it.
    pub fn generate_key(
        &mut self,
        days_valid: u32,
        max_devices: u32,
        features: Vec<String>,
        owner: String,
        created: &WallClock,
        expiry_offset: i32,
    ) -> (r: String)
        requires
            old(self).wf(),
            created.wf(),
            created.later(days_valid * SECS_PER_DAY, expiry_offset).wf(),
        ensures
            final(self).wf(),
            exists|a: u16, b: u16, c: u16, d: u16| r@ == key_text(a, b, c, d),
            final(self)@ == (KeyModel {
                keys: old(self)@.keys.insert(
                    r@,
                    new_license(
                        r@,
                        max_devices,
                        views(features@),
                        owner@,
                        *created,
                        created.later(days_valid * SECS_PER_DAY, expiry_offset),
                    ),
                ),
                ..old(self)@
            }),
            final(self)@.keys[r@].expires_at == civil_text(
                (created.secs + days_valid * 86_400 + expiry_offset) as i64,
                created.nanos,
                "%Y-%m-%d %H:%M:%S"@,
            ),
            four_digit_year(
                created.later(days_valid * SECS_PER_DAY, expiry_offset).local() as int,
            ) ==> expiry(final(self)@.keys[r@]) == Some(
                (created.later(days_valid * SECS_PER_DAY, expiry_offset).local(), 0u32),
            ),
    {
        let key = format_key(random_u16(), random_u16(), random_u16(), random_u16());
        let copy = key.as_str().to_owned();
        self.add_key(copy, days_valid, max_devices, features, owner, created, expiry_offset);
        key
    }

    /// Whether a key can be used on one more device.
    pub fn validate_key(&self, key: &str, now: &WallClock) -> (r: Result<bool, KeyError>)
        requires
            self.wf(),
        ensures
            r == validity(self@.keys, key@, *now),
    {
        match self.keys.get(&key.to_owned()) {
            None => Ok(false),
            Some(l) => judge_license(l, read_expiry(l), (now.secs, now.nanos)),
        }
    }

    /// Uses a key on one more device, if it can be; says whether it was.
    pub fn activate_device(&mut self, key: &str, ip: &str, now: &WallClock) -> (r: Result<
        bool,
        KeyError,
    >)
        requires
            old(self).wf(),
            now.wf(),
        ensures
            final(self).wf(),
            r == validity(old(self)@.keys, key@, *now),
            final(self)@ == activated(old(self)@, key@, ip@, *now),
    {
        match self.validate_key(key, now) {
            Err(e) => Err(e),
            Ok(valid) => {
                if !valid {
                    return Ok(false);
                }
                let ghost before = self.keys;
                if let Some(i) = self.keys.position(&key.to_owned()) {
                    let license = self.keys.value_mut(i);
                    license.current_devices += 1;
                    license.last_used = Some(now.format(SECONDS_PATTERN));
                    let ghost v = *license;
                    proof {
                        Table::lemma_set(before, self.keys, i as int, v);
                    }
                }
                let usage = KeyUsage {
                    key_hash: hex_of_bytes(&sha256_of(key)),
                    ip: ip.to_owned(),
                    timestamp: now.format(SECONDS_PATTERN),
                    action: "activate".to_owned(),
                };
                let ghost u = usage@;
                let ghost log = self.usage_log@;
                self.usage_log.push(usage);
                assert(usage_views(self.usage_log@) =~= usage_views(log).push(u));
                Ok(true)
            },
        }
    }

    /// Gives a key up on one device; says whether the key is on record.
    pub fn deactivate_device(&mut self, key: &str) -> (r: bool)
        requires
            old(self).wf(),
        ensures
            final(self).wf(),
            final(self)@ == deactivated(old(self)@, key@),
            r == old(self)@.keys.contains_key(key@),
    {
        let ghost before = self.keys;
        match self.keys.position(&key.to_owned()) {
            None => false,
            Some(i) => {
                let license = self.keys.value_mut(i);
                if license.current_devices > 0 {
                    license.current_devices -= 1;
                }
                let ghost v = *license;
                proof {
                    Table::lemma_set(before, self.keys, i as int, v);
                    assert(before.keys()[i as int] == key@);
                    if before@[key@].current_devices == 0 {
                        assert(before@.insert(key@, v@) =~= before@);
                    }
                }
                true
            },
        }
    }

    /// What is known of a key.
    pub fn get_key_info(&self, key: &str) -> (r: Option<LicenseKey>)
        requires
            self.wf(),
        ensures
            match r {
                Some(l) => self@.keys.contains_key(key@) && l@ == self@.keys[key@],
                None => !self@.keys.contains_key(key@),
            },
    {
        match self.keys.get(&key.to_owned()) {
            Some(l) => Some(copy_license(l)),
            None => None,
        }
    }

    /// How many keys there are.
    pub fn get_key_count(&self) -> (r: usize)
        requires
            self.wf(),
        ensures
            r == self@.keys.dom().len(),
    {
        self.keys.len()
    }

    /// On how many devices the keys are used and can be used.
    pub fn device_totals(&self) -> (r: (u128, u128))
        requires
            self.wf(),
        ensures
            r.0 == devices_in_use(self@),
            r.1 == devices_allowed(self@),
    {
        let ghost m = self.keys@;
        let ghost ks = self.keys.keys();
        let ghost f = |l: LicenseModel| l.current_devices as nat;
        let ghost g = |l: LicenseModel| l.max_devices as nat;
        let n: usize = self.keys.len();
        let mut used: u128 = 0;
        let mut allowed: u128 = 0;
        let mut i: usize = 0;
        assert(ks.take(0) =~= Seq::<Seq<char>>::empty());
        while i < n
            invariant
                i <= n,
                n == ks.len(),
                self.wf(),
                m == self.keys@,
                ks == self.keys.keys(),
                f == |l: LicenseModel| l.current_devices as nat,
                g == |l: LicenseModel| l.max_devices as nat,
                used == list_sum(m, ks.take(i as int), f),
                allowed == list_sum(m, ks.take(i as int), g),
                used <= i * 0xffff_ffff,
                allowed <= i * 0xffff_ffff,
            decreases n - i,
        {
            proof {
                self.keys.lemma_at(i as int);
                assert(ks.take(i + 1).drop_last() =~= ks.take(i as int));
                assert((i + 1) * 0xffff_ffff == i * 0xffff_ffff + 0xffff_ffff) by (nonlinear_arith);
                assert(i * 0xffff_ffff <= 0xffff_ffff_ffff_ffff * 0xffff_ffff) by (nonlinear_arith)
                    requires
                        i <= 0xffff_ffff_ffff_ffff,
                ;
            }
            let l = self.keys.value_at(i);
            used = used + l.current_devices as u128;
            allowed = allowed + l.max_devices as u128;
            i += 1;
        }
        proof {
            assert(ks.take(i as int) =~= ks);
            self.keys.lemma_len();
            assert(ks.to_set() =~= m.dom());
            lemma_sum(m, ks, f);
            lemma_sum(m, ks, g);
        }
        (used, allowed)
    }

    /// Numbers about all keys.
    pub fn get_stats(&self, now: &WallClock) -> (r: KeyStats)
        requires
            self.wf(),
            devices_in_use(self@) <= u32::MAX,
            devices_allowed(self@) <= u32::MAX,
        ensures
            r.total_keys == self@.keys.dom().len(),
            r.active_keys == active_count(self@),
            r.expired_keys == expired_count(self@, *now),
            r.total_devices == devices_in_use(self@),
            r.max_devices == devices_allowed(self@),
    {
        let ghost m = self.keys@;
        let ghost ks = self.keys.keys();
        let ghost p = |l: LicenseModel| l.is_active;
        let ghost q = |l: LicenseModel| has_expired(l, *now);
        let n: usize = self.keys.len();
        let mut active: usize = 0;
        let mut expired: usize = 0;
        let mut i: usize = 0;
        assert(ks.take(0) =~= Seq::<Seq<char>>::empty());
        while i < n
            invariant
                i <= n,
                n == ks.len(),
                self.wf(),
                m == self.keys@,
                ks == self.keys.keys(),
                p == |l: LicenseModel| l.is_active,
                q == |l: LicenseModel| has_expired(l, *now),
                active == list_count(m, ks.take(i as int), p),
                expired == list_count(m, ks.take(i as int), q),
                active <= i,
                expired <= i,
            decreases n - i,
        {
            proof {
                self.keys.lemma_at(i as int);
                assert(ks.take(i + 1).drop_last() =~= ks.take(i as int));
            }
            let l = self.keys.value_at(i);
            if l.is_active {
                active += 1;
            }
            if is_past(read_expiry(l), (now.secs, now.nanos)) {
                expired += 1;
            }
            i += 1;
        }
        proof {
            assert(ks.take(i as int) =~= ks);
            self.keys.lemma_len();
            assert(ks.to_set() =~= m.dom());
            lemma_count(m, ks, p);
            lemma_count(m, ks, q);
            assert(expired_count(self@, *now) == map_count(m, q));
        }
        let (used, allowed) = self.device_totals();
        KeyStats {
            total_keys: n,
            active_keys: active,
            expired_keys: expired,
            total_devices: used as u32,
            max_devices: allowed as u32,
        }
    }

    /// The use made of the keys.
    pub fn usage(&self) -> (r: &Vec<KeyUsage>)
        ensures
            usage_views(r@) == self@.usage,
    {
        &self.usage_log
    }

    /// All keys, to be saved.
    pub fn saved_keys(&self) -> (r: Vec<(String, LicenseKey)>)
        requires
            self.wf(),
        ensures
            entries_loaded(r@) == self@.keys,
            r@.len() == self@.keys.dom().len(),
    {
        let ghost m = self.keys@;
        let ghost ks = self.keys.keys();
        let n: usize = self.keys.len();
        let mut out: Vec<(String, LicenseKey)> = Vec::new();
        let mut i: usize = 0;
        assert(entries_loaded(out@) =~= m.restrict(ks.take(0).to_set()));
        while i < n
            invariant
                i <= n,
                n == ks.len(),
                self.wf(),
                m == self.keys@,
                ks == self.keys.keys(),
                out.len() == i,
                entries_loaded(out@) == m.restrict(ks.take(i as int).to_set()),
            decreases n - i,
        {
            let ghost before = out@;
            let entry = (
                self.keys.key_at(i).as_str().to_owned(),
                copy_license(self.keys.value_at(i)),
            );
            out.push(entry);
            proof {
                self.keys.lemma_at(i as int);
                assert(out@.drop_last() =~= before);
                let shorter = ks.take(i as int);
                let longer = ks.take(i + 1);
                assert(longer =~= shorter.push(ks[i as int]));
                assert forall|x: Seq<char>| longer.to_set().contains(x)
                    <==> shorter.to_set().insert(ks[i as int]).contains(x) by {
                    if shorter.contains(x) {
                        let j = shorter.index_of(x);
                        assert(longer[j] == x);
                    }
                    if x == ks[i as int] {
                        assert(longer[i as int] == x);
                    }
                }
                assert(entries_loaded(out@) =~= m.restrict(longer.to_set()));
            }
            i += 1;
        }
        proof {
            assert(ks.take(i as int) =~= ks);
            assert(ks.to_set() =~= m.dom());
            assert(m.restrict(ks.to_set()) =~= m);
        }
        out
    }
}

// ---------------------------------------------------------------------------
// Laws
// ---------------------------------------------------------------------------

/// No key is used on more devices than it allows.
pub open spec fn within_limits(m: KeyModel) -> bool {
    forall|k: Seq<char>| #[trigger]
        m.keys.contains_key(k) ==> m.keys[k].current_devices <= m.keys[k].max_devices
}

/// Using a key and giving it up keep every key within its limit.
pub proof fn law_limits_are_kept(m: KeyModel, key: Seq<char>, ip: Seq<char>, now: WallClock)
    requires
        within_limits(m),
    ensures
        within_limits(activated(m, key, ip, now)),
        within_limits(deactivated(m, key)),
{
}

/// A key that is used up to its limit is refused.
pub proof fn law_limit_refuses(m: KeyModel, key: Seq<char>, ip: Seq<char>, now: WallClock)
    requires
        m.keys.contains_key(key),
        m.keys[key].current_devices >= m.keys[key].max_devices,
    ensures
        validity(m.keys, key, now) != Ok::<bool, KeyError>(true),
        activated(m, key, ip, now) == m,
{
}

/// A key can be used exactly where it is said to be valid, and each use counts once.
pub proof fn law_activation_counts(m: KeyModel, key: Seq<char>, ip: Seq<char>, now: WallClock)
    ensures
        validity(m.keys, key, now) == Ok::<bool, KeyError>(true) ==> activated(
            m,
            key,
            ip,
            now,
        ).keys[key].current_devices == m.keys[key].current_devices + 1 && activated(
            m,
            key,
            ip,
            now,
        ).usage.len() == m.usage.len() + 1,
        validity(m.keys, key, now) != Ok::<bool, KeyError>(true) ==> activated(m, key, ip, now)
            == m,
{
}

/// Giving a key up after it was used leaves it with as many devices as before.
pub proof fn law_deactivation_undoes(m: KeyModel, key: Seq<char>, ip: Seq<char>, now: WallClock)
    requires
        validity(m.keys, key, now) == Ok::<bool, KeyError>(true),
    ensures
        deactivated(activated(m, key, ip, now), key).keys[key].current_devices
            == m.keys[key].current_devices,
{
}

/// A new key is valid, if it allows a device at all, until the moment that its expiry
/// denotes, and not after it.
pub proof fn law_new_key_is_valid(
    m: KeyModel,
    key: Seq<char>,
    max_devices: u32,
    features: Seq<Seq<char>>,
    owner: Seq<char>,
    created: WallClock,
    expires: WallClock,
    now: WallClock,
)
    requires
        max_devices > 0,
        expiry(new_license(key, max_devices, features, owner, created, expires)) is Some,
    ensures
        ({
            let l = new_license(key, max_devices, features, owner, created, expires);
            validity(m.keys.insert(key, l), key, now) == Ok::<bool, KeyError>(
                !earlier(expiry(l)->0, (now.secs, now.nanos)),
            )
        }),
{
}

/// What becomes of a key that is asked for: one that is not on record or not active is
/// refused, one whose expiry cannot be read is an error, and any other can be used exactly
/// if its expiry does not lie before this moment and it has a device left.
pub proof fn law_key_verdicts(keys: Map<Seq<char>, LicenseModel>, key: Seq<char>, now: WallClock)
    ensures
        ({
            let l = keys[key];
            let end = zoned_time(l.expires_at + " +0000"@, "%Y-%m-%d %H:%M:%S %z"@);
            let known = keys.contains_key(key);
            let over = match end {
                Some(t) => t.0 < now.secs || (t.0 == now.secs && t.1
                < now.nanos),
                None => false,
            };
            &&& !known || !l.is_active ==> validity(keys, key, now) == Ok::<bool, KeyError>(false)
            &&& known && l.is_active && end is None ==> validity(keys, key, now) == Err::<
                bool,
                KeyError,
            >(KeyError::UnreadableExpiry)
            &&& known && l.is_active && end is Some ==> validity(keys, key, now) == Ok::<
                bool,
                KeyError,
            >(!over && l.current_devices < l.max_devices)
            &&& has_expired(l, now) <==> over
        }),
{
}

/// A use of a key that is allowed counts one device more, says when, and is put on record
/// under the hash of the key; the rest of the key, and every other key, stays. Giving a
/// device up counts one less, but never below zero, and leaves the record alone.
pub proof fn law_use_changes_one_key(
    m: KeyModel,
    key: Seq<char>,
    ip: Seq<char>,
    now: WallClock,
    other: Seq<char>,
)
    ensures
        ({
            let after = activated(m, key, ip, now);
            let l = m.keys[key];
            let u = after.usage.last();
            &&& validity(m.keys, key, now) == Ok::<bool, KeyError>(true) ==> after.keys[key] == (
            LicenseModel {
                current_devices: after.keys[key].current_devices,
                last_used: Some(now.text("%Y-%m-%d %H:%M:%S"@)),
                ..l
            }) && after.keys[key].current_devices == l.current_devices + 1
                && after.usage.drop_last() == m.usage && u.ip == ip && u.action == "activate"@
                && u.key_hash == hex_bytes(sha256(key)) && u.timestamp == now.text(
                "%Y-%m-%d %H:%M:%S"@,
            )
            &&& other != key ==> (after.keys.contains_key(other) <==> m.keys.contains_key(other))
                && after.keys[other] == m.keys[other]
        }),
        ({
            let after = deactivated(m, key);
            let l = m.keys[key];
            &&& after.usage == m.usage
            &&& m.keys.contains_key(key) && l.current_devices > 0 ==> after.keys[key] == (
            LicenseModel { current_devices: after.keys[key].current_devices, ..l })
                && after.keys[key].current_devices == l.current_devices - 1
            &&& m.keys.contains_key(key) && l.current_devices == 0 ==> after.keys == m.keys
            &&& after.keys.contains_key(other) <==> m.keys.contains_key(other)
            &&& other != key ==> after.keys[other] == m.keys[other]
        }),
{
    let after = activated(m, key, ip, now);
    if validity(m.keys, key, now) == Ok::<bool, KeyError>(true) {
        assert(after.usage.drop_last() =~= m.usage);
    }
}

/// A new key is active, on no device yet, and was never used. It shows the local time at
/// which it was made and the one at which it expires.
pub proof fn law_new_key_says(
    key: Seq<char>,
    max_devices: u32,
    features: Seq<Seq<char>>,
    owner: Seq<char>,
    created: WallClock,
    expires: WallClock,
)
    ensures
        ({
            let l = new_license(key, max_devices, features, owner, created, expires);
            &&& l.key == key && l.max_devices == max_devices && l.features == features && l.owner
                == owner
            &&& l.is_active && l.current_devices == 0 && l.last_used is None
            &&& l.created_at == created.text("%Y-%m-%d %H:%M:%S"@)
            &&& l.expires_at == expires.text("%Y-%m-%d %H:%M:%S"@)
        }),
{
}

/// The statistics count each key once: a key that was not on record adds its devices, and
/// one to the active or the expired keys if it is one.
pub proof fn law_statistics_add_up(
    m: KeyModel,
    key: Seq<char>,
    l: LicenseModel,
    now: WallClock,
)
    requires
        m.keys.dom().finite(),
        !m.keys.contains_key(key),
    ensures
        ({
            let more = KeyModel { keys: m.keys.insert(key, l), ..m };
            &&& devices_in_use(more) == devices_in_use(m) + l.current_devices
            &&& devices_allowed(more) == devices_allowed(m) + l.max_devices
            &&& active_count(more) == active_count(m) + (if l.is_active {
                1int
            } else {
                0
            })
            &&& expired_count(more, now) == expired_count(m, now) + (if lies_before(
                expiry(l),
                (now.secs, now.nanos),
            ) {
                1int
            } else {
                0
            })
        }),
{
    lemma_sum_insert(m.keys, key, l, |x: LicenseModel| x.current_devices as nat);
    lemma_sum_insert(m.keys, key, l, |x: LicenseModel| x.max_devices as nat);
    lemma_count_insert(m.keys, key, l, |x: LicenseModel| x.is_active);
    lemma_count_insert(m.keys, key, l, |x: LicenseModel| has_expired(x, now));
}

/// Of two saved entries for one key the later one counts.
pub proof fn law_last_entry_counts(e: Seq<(String, LicenseKey)>, x: (String, LicenseKey))
    ensures
        entries_loaded(e.push(x)) == entries_loaded(e).insert(x.0@, x.1@),
        entries_loaded(Seq::empty()) == Map::<Seq<char>, LicenseModel>::empty(),
{
    assert(e.push(x).drop_last() =~= e);
}

/// The text of a key: four groups of four digits with dashes between them, nineteen
/// characters in all.
pub proof fn law_key_form(a: u16, b: u16, c: u16, d: u16)
    ensures
        ({
            let t = key_text(a, b, c, d);
            &&& t.len() == 19
            &&& t[4] == '-' && t[9] == '-' && t[14] == '-'
            &&& t.subrange(0, 4) == hex4_upper(a as nat)
            &&& t.subrange(5, 9) == hex4_upper(b as nat)
            &&& t.subrange(10, 14) == hex4_upper(c as nat)
            &&& t.subrange(15, 19) == hex4_upper(d as nat)
        }),
{
    let t = key_text(a, b, c, d);
    assert(t.subrange(0, 4) =~= hex4_upper(a as nat));
    assert(t.subrange(5, 9) =~= hex4_upper(b as nat));
    assert(t.subrange(10, 14) =~= hex4_upper(c as nat));
    assert(t.subrange(15, 19) =~= hex4_upper(d as nat));
}

} // verus!
