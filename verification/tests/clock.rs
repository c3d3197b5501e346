use chrono::{TimeZone, Utc};
use rusty_ts::time::clock::{Clock, Fixed, Monotonic, Wall};
use rusty_ts::time::instant::Timestamp;

fn stamp(t: Timestamp) -> (i64, u32) {
    (t.timestamp(), t.timestamp_subsec_nanos())
}

#[test]
fn fixed_clock_is_deterministic() {
    let dt = Utc.with_ymd_and_hms(2026, 5, 22, 14, 30, 45).unwrap();
    let target = Timestamp::from_timestamp(dt.timestamp(), 0).unwrap();
    let clock = Fixed::new(target);
    assert_eq!(clock.now(), target);
    assert_eq!(clock.now(), target);
}

#[test]
fn wall_clock_is_monotonic_ish() {
    let clock = Wall;
    let a = clock.now();
    let b = clock.now();
    assert!(stamp(b) >= stamp(a), "wall clock went backwards: {a:?} -> {b:?}");
}

#[test]
fn wall_clock_agrees_with_chrono() {
    let before = Utc::now().timestamp();
    let ours = Wall.now().timestamp();
    let after = Utc::now().timestamp();
    assert!(before <= ours && ours <= after);
}

#[test]
fn monotonic_clock_advances() {
    let clock = Monotonic::new();
    let a = clock.now();
    let mut b = clock.now();
    let mut spins: u64 = 0;
    while stamp(b) <= stamp(a) && spins < 100_000_000 {
        b = clock.now();
        spins += 1;
    }
    assert!(stamp(b) > stamp(a), "monotonic clock did not advance: {a:?} -> {b:?}");
    assert!(stamp(clock.anchor()) <= stamp(a));
}

#[test]
fn advancing_adds_the_span() {
    let t = Timestamp::from_timestamp(100, 900_000_000).unwrap();
    assert_eq!(stamp(Monotonic::advanced(t, 2, 200_000_000)), (103, 100_000_000));
    assert_eq!(stamp(Monotonic::advanced(t, 0, 0)), (100, 900_000_000));
}

#[test]
fn advancing_from_a_leap_second_matches_chrono() {
    // 23:59:59 plus a leap-second fraction.
    let leap = Timestamp::from_timestamp(86399, 1_500_000_000).unwrap();
    let within = Monotonic::advanced(leap, 0, 400_000_000);
    assert_eq!(stamp(within), (86399, 1_900_000_000));
    let beyond = Monotonic::advanced(leap, 1, 0);
    let expected = chrono::DateTime::<Utc>::from_timestamp(86399, 1_500_000_000).unwrap()
        + chrono::TimeDelta::seconds(1);
    assert_eq!(stamp(beyond), (expected.timestamp(), expected.timestamp_subsec_nanos()));
}

#[test]
fn advancing_past_the_last_instant_keeps_the_anchor() {
    let t = Timestamp::from_timestamp(rusty_ts::time::instant::MAX_TIMESTAMP_SECS, 0).unwrap();
    assert_eq!(stamp(Monotonic::advanced(t, 10, 0)), stamp(t));
}

#[test]
fn monotonic_reading_is_the_anchor_moved_on() {
    let clock = Monotonic::new();
    let r = clock.reading();
    assert!(stamp(r) >= stamp(clock.anchor()));
    let later = clock.now();
    assert!(stamp(later) >= stamp(r));
}
