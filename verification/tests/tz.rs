use chrono::{TimeZone, Utc};
use rusty_ts::time::instant::Timestamp;
use rusty_ts::{Error, TimezoneSource};

fn instant(y: i32, mo: u32, d: u32, h: u32, mi: u32, s: u32) -> Timestamp {
    let dt = Utc.with_ymd_and_hms(y, mo, d, h, mi, s).unwrap();
    Timestamp::from_timestamp(dt.timestamp(), dt.timestamp_subsec_nanos()).unwrap()
}

#[test]
fn utc_renders_hours_as_zero_offset() {
    let rendered = TimezoneSource::Utc
        .render(instant(2026, 5, 22, 14, 30, 45), "%H:%M:%S")
        .unwrap();
    assert_eq!(rendered, "14:30:45");
}

#[test]
fn named_resolves_known_iana() {
    let tz = TimezoneSource::named("America/New_York").expect("known zone");
    let rendered = tz.render(instant(2026, 5, 22, 14, 30, 45), "%H:%M").unwrap();
    assert_eq!(rendered, "10:30");
}

#[test]
fn named_rejects_unknown_iana() {
    let result = TimezoneSource::named("Atlantis/Atlantica");
    match result {
        Err(Error::InvalidIanaName(name)) => assert_eq!(name, "Atlantis/Atlantica"),
        other => panic!("expected InvalidIanaName, got {other:?}"),
    }
}

#[test]
fn named_zone_keeps_its_name_and_lookup_is_exact() {
    match TimezoneSource::named("Asia/Tokyo").unwrap() {
        TimezoneSource::Named(z) => assert_eq!(z.name(), "Asia/Tokyo"),
        other => panic!("expected a named zone, got {other:?}"),
    }
    assert!(TimezoneSource::named("asia/tokyo").is_err());
    assert!(TimezoneSource::named("").is_err());
}

#[test]
fn utc_zone_name_renders_as_utc() {
    let rendered = TimezoneSource::utc().render(instant(2026, 1, 1, 0, 0, 0), "%Z %z").unwrap();
    assert_eq!(rendered, "UTC +0000");
}

#[test]
fn local_rendering_matches_chrono_local() {
    let t = instant(2026, 5, 22, 14, 30, 45);
    let ours = TimezoneSource::local().render(t, "%Y-%m-%d %H:%M:%S %z").unwrap();
    let theirs = Utc
        .timestamp_opt(t.timestamp(), 0)
        .unwrap()
        .with_timezone(&chrono::Local)
        .format("%Y-%m-%d %H:%M:%S %z")
        .to_string();
    assert_eq!(ours, theirs);
}

#[test]
fn rejected_format_is_an_error() {
    match TimezoneSource::Utc.render(instant(2026, 5, 22, 14, 30, 45), "%") {
        Err(Error::InvalidFormat(f)) => assert_eq!(f, "%"),
        other => panic!("expected InvalidFormat, got {other:?}"),
    }
}
