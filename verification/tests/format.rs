use chrono::{TimeZone, Timelike, Utc};
use rusty_ts::time::format::{format_default, format_with, DEFAULT_FORMAT};
use rusty_ts::time::instant::Timestamp;
use rusty_ts::{Error, TimezoneSource};

fn fixture_instant() -> Timestamp {
    let dt = Utc
        .with_ymd_and_hms(2026, 5, 22, 14, 30, 45)
        .unwrap()
        .with_nanosecond(123_456_000)
        .unwrap();
    Timestamp::from_timestamp(dt.timestamp(), dt.timestamp_subsec_nanos()).unwrap()
}

#[test]
fn default_format_matches_moreutils_default_string() {
    assert_eq!(DEFAULT_FORMAT, "%b %d %H:%M:%S");
}

#[test]
fn default_format_under_utc_is_deterministic() {
    let rendered = format_default(fixture_instant(), &TimezoneSource::Utc).unwrap();
    assert_eq!(rendered, "May 22 14:30:45");
}

#[test]
fn custom_format_renders_tokens() {
    let rendered = format_with("%Y-%m-%d %H:%M:%S", fixture_instant(), &TimezoneSource::Utc).unwrap();
    assert_eq!(rendered, "2026-05-22 14:30:45");
}

#[test]
fn literal_brackets_are_preserved() {
    let rendered = format_with("[%H:%M:%S]", fixture_instant(), &TimezoneSource::Utc).unwrap();
    assert_eq!(rendered, "[14:30:45]");
}

#[test]
fn fractional_seconds_token_expands() {
    let rendered = format_with("%H:%M:%.S", fixture_instant(), &TimezoneSource::Utc).unwrap();
    assert_eq!(rendered, "14:30:45.123456");
}

#[test]
fn fractional_epoch_token_expands() {
    let rendered = format_with("%.s", fixture_instant(), &TimezoneSource::Utc).unwrap();
    let expected_epoch: i64 = fixture_instant().timestamp();
    assert_eq!(rendered, format!("{expected_epoch}.123456"));
}

#[test]
fn both_fractional_tokens_in_one_string() {
    let rendered =
        format_with("%H:%M:%.S epoch=%.s", fixture_instant(), &TimezoneSource::Utc).unwrap();
    let expected_epoch: i64 = fixture_instant().timestamp();
    assert_eq!(rendered, format!("14:30:45.123456 epoch={expected_epoch}.123456"));
}

#[test]
fn fractional_epoch_value_is_exact() {
    let rendered = format_with("%.s|%.S", fixture_instant(), &TimezoneSource::Utc).unwrap();
    assert_eq!(rendered, "1779460245.123456|45.123456");
}

#[test]
fn fraction_is_zero_padded_and_truncated_to_micros() {
    let t = Timestamp::from_timestamp(60, 7_999).unwrap();
    let rendered = format_with("%.S %.s", t, &TimezoneSource::Utc).unwrap();
    assert_eq!(rendered, "00.000007 60.000007");
}

#[test]
fn negative_epoch_renders_sign_then_fraction() {
    let t = Timestamp::from_timestamp(-2, 500_000_000).unwrap();
    let rendered = format_with("%.s", t, &TimezoneSource::Utc).unwrap();
    assert_eq!(rendered, "-2.500000");
}

#[test]
fn leap_second_fraction_shows_seven_digits() {
    let t = Timestamp::from_timestamp(59, 1_250_000_000).unwrap();
    let rendered = format_with("%.S", t, &TimezoneSource::Utc).unwrap();
    assert_eq!(rendered, "60.1250000");
}

#[test]
fn format_without_tokens_and_empty_format() {
    assert_eq!(format_with("", fixture_instant(), &TimezoneSource::Utc).unwrap(), "");
    assert_eq!(format_with("plain", fixture_instant(), &TimezoneSource::Utc).unwrap(), "plain");
    assert_eq!(format_with("%.S%.S", fixture_instant(), &TimezoneSource::Utc).unwrap(), "45.12345645.123456");
}

#[test]
fn rejected_format_names_the_whole_spec() {
    match format_with("ok %.S then %Q", fixture_instant(), &TimezoneSource::Utc) {
        Err(Error::InvalidFormat(spec)) => assert_eq!(spec, "ok %.S then %Q"),
        other => panic!("expected InvalidFormat, got {other:?}"),
    }
    match format_with("%%.S", fixture_instant(), &TimezoneSource::Utc) {
        Err(Error::InvalidFormat(spec)) => assert_eq!(spec, "%%.S"),
        other => panic!("expected InvalidFormat, got {other:?}"),
    }
}

#[test]
fn named_zone_renders_zone_abbreviation_and_fraction() {
    let tokyo = TimezoneSource::named("Asia/Tokyo").unwrap();
    let rendered = format_with("%H:%M:%.S %Z", fixture_instant(), &tokyo).unwrap();
    assert_eq!(rendered, "23:30:45.123456 JST");
}

#[test]
fn token_splices_between_the_rendered_parts() {
    let t = fixture_instant();
    let tz = TimezoneSource::Utc;
    let render = |f: &str| format_with(f, t, &tz).unwrap();
    assert_eq!(render("[%H]%.S %M"), format!("{}{}.123456{}", render("[%H]"), render("%S"), render(" %M")));
    assert_eq!(render("%.s|%d"), format!("{}.123456{}", t.timestamp(), render("|%d")));
}
