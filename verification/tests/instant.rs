use rusty_ts::time::instant::{Timestamp, MAX_TIMESTAMP_SECS, MIN_TIMESTAMP_SECS};

#[test]
fn range_matches_chrono() {
    for (secs, nanos) in [
        (MIN_TIMESTAMP_SECS, 0u32),
        (MAX_TIMESTAMP_SECS, 999_999_999),
        (MIN_TIMESTAMP_SECS - 1, 0),
        (MAX_TIMESTAMP_SECS + 1, 0),
        (59, 1_000_000_000),
        (58, 1_000_000_000),
        (-1, 1_999_999_999),
        (-61, 1_000_000_000),
        (0, 2_000_000_000),
        (0, 999_999_999),
    ] {
        let ours = Timestamp::from_timestamp(secs, nanos).is_some();
        let theirs = chrono::DateTime::<chrono::Utc>::from_timestamp(secs, nanos).is_some();
        assert_eq!(ours, theirs, "({secs}, {nanos})");
    }
}

#[test]
fn parts_round_trip() {
    let t = Timestamp::from_timestamp(1_779_460_245, 123).unwrap();
    assert_eq!(t.timestamp(), 1_779_460_245);
    assert_eq!(t.timestamp_subsec_nanos(), 123);
    assert_eq!(Timestamp::epoch().timestamp(), 0);
}

#[test]
fn signed_nanos_since_matches_chrono() {
    let pairs = [
        ((100, 5u32), (40, 900_000_000u32)),
        ((40, 900_000_000), (100, 5)),
        ((86399, 1_500_000_000), (86390, 0)),
        ((86400, 0), (86399, 1_500_000_000)),
        ((86399, 1_500_000_000), (86400, 250_000_000)),
        ((-86401, 7), (3, 1)),
    ];
    for ((a, an), (b, bn)) in pairs {
        let x = Timestamp::from_timestamp(a, an).unwrap();
        let y = Timestamp::from_timestamp(b, bn).unwrap();
        let cx = chrono::DateTime::<chrono::Utc>::from_timestamp(a, an).unwrap();
        let cy = chrono::DateTime::<chrono::Utc>::from_timestamp(b, bn).unwrap();
        let d = cx.signed_duration_since(cy);
        let expected = d.num_seconds() as i128 * 1_000_000_000 + d.subsec_nanos() as i128;
        assert_eq!(x.signed_nanos_since(&y), expected, "{a}.{an} - {b}.{bn}");
        assert_eq!(x.second_of_day(), cx.timestamp().rem_euclid(86400) as u32);
    }
}
