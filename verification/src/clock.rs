//! Wall-clock time: what the local clock shows, as text and as numbers.
use vstd::prelude::*;

use crate::text::is_dec_digit;

verus! {

/// A moment, with the local offset from UTC that holds at it.
#[derive(Debug, Clone, Copy, PartialEq, Eq, Structural)]
pub struct WallClock {
    /// Seconds since the start of 1970, UTC.
    pub secs: i64,
    /// Nanoseconds within the second.
    pub nanos: u32,
    /// Seconds by which local time is ahead of UTC.
    pub offset: i32,
}

/// The number of nanoseconds in a second.
pub const NANOS_PER_SEC: u32 = 1_000_000_000;

/// Date and time to the second.
pub const SECONDS_PATTERN: &'static str = "%Y-%m-%d %H:%M:%S";

/// Date and time to the millisecond.
pub const MILLIS_PATTERN: &'static str = "%Y-%m-%d %H:%M:%S%.3f";

/// Date alone.
pub const DATE_PATTERN: &'static str = "%Y-%m-%d";

/// Date alone, without separators.
pub const COMPACT_DATE_PATTERN: &'static str = "%Y%m%d";

/// Date and time to the second, with an offset from UTC.
pub const ZONED_PATTERN: &'static str = "%Y-%m-%d %H:%M:%S %z";

/// Whether the calendar reaches so many seconds from the start of 1970: it covers the
/// years from -262143 to 262142.
pub open spec fn in_calendar(secs: int) -> bool {
    -8_334_601_228_800 <= secs <= 8_210_266_876_799
}

/// Whether the moment lies in the years from 0 to 9999.
pub open spec fn four_digit_year(secs: int) -> bool {
    -62_167_219_200 <= secs <= 253_402_300_799
}

/// Whether the text pattern is one that times are written in.
pub open spec fn known_pattern(pattern: Seq<char>) -> bool {
    pattern == SECONDS_PATTERN@ || pattern == MILLIS_PATTERN@ || pattern == DATE_PATTERN@ || pattern
        == COMPACT_DATE_PATTERN@
}

/// The text of the civil time `secs` seconds and `nanos` nanoseconds after the start of
/// 1970, in a pattern.
pub uninterp spec fn civil_text(secs: i64, nanos: u32, pattern: Seq<char>) -> Seq<char>;

/// The civil time that a text in a pattern denotes, as seconds and nanoseconds.
pub uninterp spec fn civil_time(text: Seq<char>, pattern: Seq<char>) -> Option<(i64, u32)>;

/// The moment that a text with an offset denotes, as UTC seconds and nanoseconds.
pub uninterp spec fn zoned_time(text: Seq<char>, pattern: Seq<char>) -> Option<(i64, u32)>;

/// The RFC 3339 text of a moment at an offset.
pub uninterp spec fn rfc3339_text(secs: i64, nanos: u32, offset: i32) -> Seq<char>;

/// The moment that an RFC 3339 text denotes, as UTC seconds and nanoseconds.
pub uninterp spec fn rfc3339_time(text: Seq<char>) -> Option<(i64, u32)>;

/// `chrono::NaiveDateTime::format`: writes a civil time in a pattern. In the years from
/// 0 to 9999 the text starts with a digit, and the text of date and time reads back as
/// the time to the precision written, and with an offset of zero behind it as the same
/// moment in UTC.
#[verifier::external_body]
pub(crate) fn chrono_format(secs: i64, nanos: u32, pattern: &str) -> (r: String)
    requires
        in_calendar(secs as int),
        nanos < NANOS_PER_SEC,
        known_pattern(pattern@),
    ensures
        r@ == civil_text(secs, nanos, pattern@),
        four_digit_year(secs as int) ==> r@.len() > 0 && is_dec_digit(r@[0]),
        four_digit_year(secs as int) && pattern@ == SECONDS_PATTERN@ ==> civil_time(r@, pattern@)
            == Some((secs, 0u32)) && zoned_time(r@ + " +0000"@, ZONED_PATTERN@) == Some(
            (secs, 0u32),
        ),
        four_digit_year(secs as int) && pattern@ == MILLIS_PATTERN@ ==> civil_time(r@, pattern@)
            == Some((secs, (nanos - nanos % 1_000_000) as u32)),
{
    chrono::DateTime::from_timestamp(secs, nanos).unwrap().naive_utc().format(pattern).to_string()
}

/// `chrono::NaiveDateTime::parse_from_str`: reads a civil time in a pattern. What texts
/// it takes beyond those that `format` writes is left to the crate.
#[verifier::external_body]
pub(crate) fn chrono_parse_civil(text: &str, pattern: &str) -> (r: Option<(i64, u32)>)
    ensures
        r == civil_time(text@, pattern@),
        r matches Some(t) ==> civil(t),
{
    chrono::NaiveDateTime::parse_from_str(text, pattern).ok().map(
        |t| (t.and_utc().timestamp(), t.and_utc().timestamp_subsec_nanos()),
    )
}

/// `chrono::DateTime::parse_from_str`: reads a moment, with its offset, in a pattern.
/// What texts it takes is left to the crate.
#[verifier::external_body]
pub(crate) fn chrono_parse_zoned(text: &str, pattern: &str) -> (r: Option<(i64, u32)>)
    ensures
        r == zoned_time(text@, pattern@),
{
    chrono::DateTime::parse_from_str(text, pattern).ok().map(
        |t| (t.timestamp(), t.timestamp_subsec_nanos()),
    )
}

/// `chrono::DateTime::to_rfc3339`: writes a moment at an offset. Where the local year
/// has four digits and the offset is whole minutes, the text reads back as the moment.
#[verifier::external_body]
pub(crate) fn chrono_rfc3339(secs: i64, nanos: u32, offset: i32) -> (r: String)
    requires
        in_calendar(secs as int),
        nanos < NANOS_PER_SEC,
        -86_400 < offset < 86_400,
    ensures
        r@ == rfc3339_text(secs, nanos, offset),
        four_digit_year(secs + offset) && offset % 60 == 0 ==> rfc3339_time(r@) == Some(
            (secs, nanos),
        ),
{
    chrono::DateTime::from_timestamp(secs, nanos).unwrap().with_timezone(
        &chrono::FixedOffset::east_opt(offset).unwrap(),
    ).to_rfc3339()
}

/// `chrono::DateTime::parse_from_rfc3339`: reads a moment. What texts it takes beyond
/// those that `to_rfc3339` writes is left to the crate.
#[verifier::external_body]
pub(crate) fn chrono_parse_rfc3339(text: &str) -> (r: Option<(i64, u32)>)
    ensures
        r == rfc3339_time(text@),
{
    chrono::DateTime::parse_from_rfc3339(text).ok().map(
        |t| (t.timestamp(), t.timestamp_subsec_nanos()),
    )
}

/// Whether the first moment, in seconds and nanoseconds, lies before the second.
pub open spec fn earlier(a: (i64, u32), b: (i64, u32)) -> bool {
    a.0 < b.0 || (a.0 == b.0 && a.1 < b.1)
}

/// Whether the first moment lies before the second.
pub fn is_earlier(a: (i64, u32), b: (i64, u32)) -> (r: bool)
    ensures
        r == earlier(a, b),
{
    a.0 < b.0 || (a.0 == b.0 && a.1 < b.1)
}

/// Whether seconds and nanoseconds denote a civil time in the calendar. In a leap second,
/// which only the last second of a minute can be, the nanoseconds go on past one second.
pub open spec fn civil(t: (i64, u32)) -> bool {
    in_calendar(t.0 as int) && (t.1 < NANOS_PER_SEC || (t.1 < 2 * NANOS_PER_SEC && t.0 as int % 60
        == 59))
}

/// A leap second between two times of day, which their seconds do not show.
pub open spec fn leap_between(a: (i64, u32), b: (i64, u32)) -> int {
    let day_a = a.0 as int % 86_400;
    let day_b = b.0 as int % 86_400;
    if day_b > day_a && a.1 >= NANOS_PER_SEC {
        1
    } else if day_b < day_a && b.1 >= NANOS_PER_SEC {
        -1
    } else {
        0
    }
}

/// The nanoseconds from one moment to another.
pub open spec fn nanos_between(a: (i64, u32), b: (i64, u32)) -> int {
    (b.0 - a.0 + leap_between(a, b)) * 1_000_000_000 + (b.1 - a.1)
}

/// The whole seconds from one moment to another, negative if that is earlier.
pub open spec fn seconds_between(a: (i64, u32), b: (i64, u32)) -> int {
    let d = nanos_between(a, b);
    if d >= 0 {
        d / 1_000_000_000
    } else {
        -(-d / 1_000_000_000)
    }
}

/// `chrono::NaiveDateTime::signed_duration_since`, and of that `TimeDelta::num_seconds`:
/// the whole seconds from one civil time to another, rounded towards zero. A leap second
/// counts where it is one of the two and the other has a later, or an earlier, time of
/// day.
#[verifier::external_body]
pub(crate) fn chrono_seconds_between(a: (i64, u32), b: (i64, u32)) -> (r: i64)
    requires
        civil(a),
        civil(b),
    ensures
        r == seconds_between(a, b),
{
    let from = chrono::DateTime::from_timestamp(a.0, a.1).unwrap().naive_utc();
    let to = chrono::DateTime::from_timestamp(b.0, b.1).unwrap().naive_utc();
    to.signed_duration_since(from).num_seconds()
}

impl WallClock {
    /// The moment and what the local clock shows at it lie in the calendar.
    pub open spec fn wf(&self) -> bool {
        &&& self.nanos < NANOS_PER_SEC
        &&& -86_400 < self.offset < 86_400
        &&& in_calendar(self.secs as int)
        &&& in_calendar(self.secs + self.offset)
    }

    /// What the local clock shows, in seconds since its start of 1970.
    pub open spec fn local(&self) -> i64 {
        (self.secs + self.offset) as i64
    }

    /// The text of what the local clock shows.
    pub open spec fn text(&self, pattern: Seq<char>) -> Seq<char> {
        civil_text(self.local(), self.nanos, pattern)
    }

    /// The hour that the local clock shows.
    pub open spec fn spec_hour(&self) -> int {
        self.local() as int % 86_400 / 3_600
    }

    /// The day of the week on the local clock, from Monday as zero. The first day of
    /// 1970 was a Thursday.
    pub open spec fn spec_weekday(&self) -> int {
        (self.local() as int / 86_400 + 3) % 7
    }

    /// Whether all fields lie where the calendar can show them.
    pub fn is_valid(&self) -> (r: bool)
        ensures
            r == self.wf(),
    {
        self.nanos < NANOS_PER_SEC && -86_400 < self.offset && self.offset < 86_400
            && -8_334_601_228_800 <= self.secs && self.secs <= 8_210_266_876_799
            && -8_334_601_228_800 <= self.secs + self.offset as i64 && self.secs
            + self.offset as i64 <= 8_210_266_876_799
    }

    /// What the local clock shows, in seconds since its start of 1970.
    pub fn local_secs(&self) -> (r: i64)
        requires
            self.wf(),
        ensures
            r == self.local(),
            r == self.secs + self.offset,
    {
        self.secs + self.offset as i64
    }

    /// The text of what the local clock shows.
    pub fn format(&self, pattern: &str) -> (r: String)
        requires
            self.wf(),
            known_pattern(pattern@),
        ensures
            r@ == self.text(pattern@),
            four_digit_year(self.local() as int) ==> r@.len() > 0 && is_dec_digit(r@[0]),
            four_digit_year(self.local() as int) && pattern@ == SECONDS_PATTERN@ ==> civil_time(
                r@,
                pattern@,
            ) == Some((self.local(), 0u32)) && zoned_time(r@ + " +0000"@, ZONED_PATTERN@) == Some(
                (self.local(), 0u32),
            ),
            four_digit_year(self.local() as int) && pattern@ == MILLIS_PATTERN@ ==> civil_time(
                r@,
                pattern@,
            ) == Some((self.local(), (self.nanos - self.nanos % 1_000_000) as u32)),
    {
        chrono_format(self.local_secs(), self.nanos, pattern)
    }

    /// The RFC 3339 text of the moment.
    pub fn rfc3339(&self) -> (r: String)
        requires
            self.wf(),
        ensures
            r@ == rfc3339_text(self.secs, self.nanos, self.offset),
            four_digit_year(self.local() as int) && self.offset % 60 == 0 ==> rfc3339_time(r@)
                == Some((self.secs, self.nanos)),
    {
        chrono_rfc3339(self.secs, self.nanos, self.offset)
    }

    /// The moment so many seconds later, at which the local offset is `offset`.
    pub open spec fn later(&self, secs: int, offset: i32) -> WallClock {
        WallClock { secs: (self.secs + secs) as i64, nanos: self.nanos, offset }
    }

    /// The moment so many seconds later, at which the local offset is `offset`; nothing
    /// where the calendar does not reach it.
    pub fn after(&self, secs: u64, offset: i32) -> (r: Option<WallClock>)
        requires
            self.wf(),
        ensures
            r is Some <==> in_calendar(self.secs + secs) && -86_400 < offset < 86_400
                && in_calendar(self.secs + secs + offset),
            r matches Some(t) ==> t == self.later(secs as int, offset) && t.wf() && t.secs
                == self.secs + secs,
    {
        if secs > 20_000_000_000_000 || offset <= -86_400 || offset >= 86_400 {
            return None;
        }
        let t = WallClock { secs: self.secs + secs as i64, nanos: self.nanos, offset };
        if t.is_valid() {
            Some(t)
        } else {
            None
        }
    }

    /// The hour that the local clock shows.
    pub fn hour(&self) -> (r: u32)
        requires
            self.wf(),
        ensures
            r == self.spec_hour(),
            r < 24,
    {
        (seconds_of_day(self.local_secs()) / 3_600) as u32
    }

    /// The day of the week on the local clock, from Monday as zero.
    pub fn weekday(&self) -> (r: u32)
        requires
            self.wf(),
        ensures
            r == self.spec_weekday(),
            r < 7,
    {
        let local: i64 = self.local_secs();
        let shifted: u64 = (local + 8_640_000_000_000) as u64;
        // One hundred million days are two more than whole weeks.
        let days: u64 = shifted / 86_400;
        assert(days == local as int / 86_400 + 100_000_000);
        ((days + 1) % 7) as u32
    }
}

/// The second within the day.
fn seconds_of_day(local: i64) -> (r: u64)
    requires
        in_calendar(local as int),
    ensures
        r == local as int % 86_400,
        r < 86_400,
{
    let shifted: u64 = (local + 8_640_000_000_000) as u64;
    shifted % 86_400
}

// ---------------------------------------------------------------------------
// Laws
// ---------------------------------------------------------------------------

spec fn hour_of(x: int) -> int {
    x % 86_400 / 3_600
}

spec fn day_of(x: int) -> int {
    (x / 86_400 + 3) % 7
}

proof fn lemma_next_day(x: int)
    ensures
        (x + 86_400) % 86_400 == x % 86_400,
        (x + 86_400) / 86_400 == x / 86_400 + 1,
        day_of(x + 86_400) == (if day_of(x) == 6 {
            0
        } else {
            day_of(x) + 1
        }),
{
    let d = x / 86_400 + 3;
    assert((d + 1) % 7 == (if d % 7 == 6 {
        0
    } else {
        d % 7 + 1
    }));
}

proof fn lemma_next_hour(x: int)
    ensures
        0 <= hour_of(x) < 24,
        hour_of(x) < 23 ==> hour_of(x + 3_600) == hour_of(x) + 1 && (x + 3_600) / 86_400 == x
            / 86_400,
        hour_of(x) == 23 ==> hour_of(x + 3_600) == 0 && (x + 3_600) / 86_400 == x / 86_400 + 1,
{
    let q = x / 86_400;
    let r = x % 86_400;
    assert(x == q * 86_400 + r);
    if hour_of(x) < 23 {
        assert(r + 3_600 < 86_400);
        assert((x + 3_600) / 86_400 == q && (x + 3_600) % 86_400 == r + 3_600);
    } else {
        assert((x + 3_600) / 86_400 == q + 1 && (x + 3_600) % 86_400 == r + 3_600 - 86_400);
    }
}

/// The hours of a day follow each other: an hour later the next one shows, after the 23rd
/// the 0th of the next day. The clock shows 0 on a Thursday at its start, and the same hour
/// of the next day after a day.
pub proof fn law_hours_follow(now: WallClock)
    requires
        now.wf(),
        now.later(3_600, now.offset).wf(),
        now.later(86_400, now.offset).wf(),
    ensures
        now.local() == 0 ==> now.spec_hour() == 0 && now.spec_weekday() == 3,
        0 <= now.spec_hour() < 24,
        now.spec_hour() < 23 ==> now.later(3_600, now.offset).spec_hour() == now.spec_hour() + 1
            && now.later(3_600, now.offset).spec_weekday() == now.spec_weekday(),
        now.spec_hour() == 23 ==> now.later(3_600, now.offset).spec_hour() == 0 && now.later(
            3_600,
            now.offset,
        ).spec_weekday() == now.later(86_400, now.offset).spec_weekday(),
        now.later(86_400, now.offset).spec_hour() == now.spec_hour(),
        now.later(86_400, now.offset).spec_weekday() == (if now.spec_weekday() == 6 {
            0
        } else {
            now.spec_weekday() + 1
        }),
{
    let x = now.local() as int;
    assert(now.later(3_600, now.offset).local() == x + 3_600);
    assert(now.later(86_400, now.offset).local() == x + 86_400);
    assert(now.spec_hour() == hour_of(x) && now.spec_weekday() == day_of(x));
    assert(now.later(3_600, now.offset).spec_hour() == hour_of(x + 3_600) && now.later(
        3_600,
        now.offset,
    ).spec_weekday() == day_of(x + 3_600));
    assert(now.later(86_400, now.offset).spec_hour() == hour_of(x + 86_400) && now.later(
        86_400,
        now.offset,
    ).spec_weekday() == day_of(x + 86_400));
    lemma_next_day(x);
    lemma_next_hour(x);
}

/// Within an hour that starts on the hour the shown hour does not change.
pub proof fn law_hour_lasts(now: WallClock, secs: int)
    requires
        now.wf(),
        now.local() as int % 3_600 == 0,
        0 <= secs < 3_600,
        now.later(secs, now.offset).wf(),
    ensures
        now.later(secs, now.offset).spec_hour() == now.spec_hour(),
        now.later(secs, now.offset).spec_weekday() == now.spec_weekday(),
{
}

/// Of two moments one is earlier, or they are the same; and the order is kept by a third.
pub proof fn law_moments_are_ordered(a: (i64, u32), b: (i64, u32), c: (i64, u32))
    ensures
        earlier(a, b) || earlier(b, a) || a == b,
        !(earlier(a, b) && earlier(b, a)),
        earlier(a, b) && earlier(b, c) ==> earlier(a, c),
        a.0 < b.0 ==> earlier(a, b),
        a.0 == b.0 ==> (earlier(a, b) <==> a.1 < b.1),
{
}

/// The whole seconds between two moments are cut towards zero: they are the same back and
/// forth but for the sign, and together with a fraction less than a second they are the
/// time between, if neither is a leap second.
pub proof fn law_whole_seconds(a: (i64, u32), b: (i64, u32))
    requires
        a.1 < 1_000_000_000,
        b.1 < 1_000_000_000,
    ensures
        seconds_between(a, b) == -seconds_between(b, a),
        a.1 == b.1 ==> seconds_between(a, b) == b.0 - a.0,
        a.0 <= b.0 && a.1 <= b.1 ==> seconds_between(a, b) == b.0 - a.0,
        a.0 < b.0 && a.1 > b.1 ==> seconds_between(a, b) == b.0 - a.0 - 1,
        a.0 == b.0 ==> seconds_between(a, b) == 0,
{
}

} // verus!
