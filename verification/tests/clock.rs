use arlian_perimeter::clock::{
    is_earlier, WallClock, COMPACT_DATE_PATTERN, DATE_PATTERN, MILLIS_PATTERN,
    SECONDS_PATTERN,
};

fn at(secs: i64, nanos: u32, offset: i32) -> WallClock {
    WallClock { secs, nanos, offset }
}

#[test]
fn local_texts() {
    let t = at(1_786_034_452, 123_456_789, 3 * 3600);
    assert_eq!(t.format(SECONDS_PATTERN), "2026-08-06 19:40:52");
    assert_eq!(t.format(MILLIS_PATTERN), "2026-08-06 19:40:52.123");
    assert_eq!(t.format(DATE_PATTERN), "2026-08-06");
    assert_eq!(t.format(COMPACT_DATE_PATTERN), "20260806");
    assert_eq!(t.rfc3339(), "2026-08-06T19:40:52.123456789+03:00");
    assert_eq!(at(0, 0, 0).rfc3339(), "1970-01-01T00:00:00+00:00");
}

#[test]
fn hours_and_weekdays() {
    assert_eq!(at(1_786_034_452, 0, 0).hour(), 16);
    assert_eq!(at(1_786_034_452, 0, 8 * 3600).hour(), 0);
    assert_eq!(at(1_786_034_452, 0, 0).weekday(), 3);
    assert_eq!(at(1_786_034_452, 0, 8 * 3600).weekday(), 4);
    assert_eq!(at(951_868_799, 0, 0).hour(), 23);
    assert_eq!(at(951_868_799, 0, 0).weekday(), 1);
    assert_eq!(at(-3600, 0, 0).hour(), 23);
    assert_eq!(at(-3600, 0, 0).weekday(), 2);
    assert_eq!(at(0, 0, 0).weekday(), 3);
}

#[test]
fn calendar_limits() {
    assert!(at(8_210_266_876_799, 999_999_999, 0).is_valid());
    assert!(!at(8_210_266_876_800, 0, 0).is_valid());
    assert!(!at(8_210_266_876_799, 0, 1).is_valid());
    assert!(at(-8_334_601_228_800, 0, 0).is_valid());
    assert!(!at(-8_334_601_228_801, 0, 0).is_valid());
    assert!(!at(0, 1_000_000_000, 0).is_valid());
    assert!(!at(0, 0, 86_400).is_valid());
    let last = at(8_210_266_876_799, 0, 0).format(SECONDS_PATTERN);
    assert_eq!(last, "+262142-12-31 23:59:59");
    let first = at(-8_334_601_228_800, 0, 0).format(SECONDS_PATTERN);
    assert_eq!(first, "-262143-01-01 00:00:00");
}

#[test]
fn later_moments() {
    let t = at(100, 5, 0);
    assert_eq!(t.after(600, 3600), Some(at(700, 5, 3600)));
    assert_eq!(t.after(u64::MAX, 0), None);
    assert_eq!(t.after(1, 86_400), None);
    assert_eq!(at(8_210_266_876_799, 0, 0).after(1, 0), None);
}

#[test]
fn moments_in_order() {
    assert!(is_earlier((1, 5), (2, 0)));
    assert!(is_earlier((1, 5), (1, 6)));
    assert!(!is_earlier((1, 5), (1, 5)));
}
