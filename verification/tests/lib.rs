use rusty_ts::time::format::DEFAULT_FORMAT;
use rusty_ts::{ElapsedAnchor, Format, Timestamper, TimestamperBuilder, TimezoneSource};

fn assert_send<T: Send>() {}
fn assert_send_sync<T: Send + Sync>() {}

#[test]
fn builder_default_yields_absolute_default_format() {
    let ts = TimestamperBuilder::new().build().expect("builds");
    assert_eq!(ts.format_spec(), DEFAULT_FORMAT);
    assert!(matches!(ts.elapsed_anchor(), ElapsedAnchor::Absolute));
}

#[test]
fn builder_custom_format_round_trips() {
    let ts = TimestamperBuilder::new()
        .format(Format::Strftime("%H:%M:%S".into()))
        .build()
        .expect("builds");
    assert_eq!(ts.format_spec(), "%H:%M:%S");
}

#[test]
fn prefix_lines_byte_typed_iterator() {
    let ts = TimestamperBuilder::new()
        .format(Format::Strftime("[%H:%M:%S]".into()))
        .timezone(TimezoneSource::Utc)
        .build()
        .expect("builds");
    let input = vec![b"hello\n".to_vec(), b"world\n".to_vec()];
    let chunks: Vec<Vec<u8>> = ts.prefix_lines(&input).expect("renders");
    assert_eq!(chunks.len(), 2);
    assert!(chunks[0].ends_with(b"  hello\n"), "got {:?}", chunks[0]);
    assert!(chunks[1].ends_with(b"  world\n"), "got {:?}", chunks[1]);
}

#[test]
fn prefix_string_lines_utf8_convenience() {
    let ts = TimestamperBuilder::new()
        .format(Format::Strftime("[%H:%M:%S]".into()))
        .timezone(TimezoneSource::Utc)
        .build()
        .expect("builds");
    let lines = vec!["hello\n".to_string(), "world\n".to_string()];
    let out: Vec<String> = ts.prefix_string_lines(&lines).expect("renders");
    assert_eq!(out.len(), 2);
    assert!(out[0].ends_with("  hello\n"));
    assert!(out[1].ends_with("  world\n"));
}

#[test]
fn lib_timestamper_is_send() {
    assert_send::<Timestamper>();
}

#[test]
fn timestamper_builder_is_send_sync() {
    assert_send_sync::<TimestamperBuilder>();
}

#[test]
fn non_utf8_payload_preserved_through_byte_iterator() {
    let ts = TimestamperBuilder::new()
        .format(Format::Strftime("[%H:%M:%S]".into()))
        .timezone(TimezoneSource::Utc)
        .build()
        .expect("builds");
    let input = vec![b"hello\xff\n".to_vec(), b"world\n".to_vec()];
    let chunks: Vec<Vec<u8>> = ts.prefix_lines(&input).expect("renders");
    assert!(chunks[0].contains(&0xFF), "expected 0xFF byte preserved in first chunk; got {:?}", chunks[0]);
}

#[test]
fn prefix_lines_of_nothing_is_nothing() {
    let ts = TimestamperBuilder::new().build().expect("builds");
    assert!(ts.prefix_lines(&Vec::new()).expect("renders").is_empty());
    assert!(ts.prefix_string_lines(&Vec::new()).expect("renders").is_empty());
}

#[test]
fn elapsed_byte_stream_starts_at_zero() {
    let ts = TimestamperBuilder::new()
        .format(Format::Strftime("%H:%M:%S".into()))
        .elapsed(ElapsedAnchor::SinceProgramStart)
        .build()
        .expect("builds");
    let chunks = ts.prefix_lines(&vec![b"a\n".to_vec()]).expect("renders");
    assert_eq!(chunks[0], b"00:00:00  a\n".to_vec());
}

#[test]
fn rejected_format_is_reported_per_stream() {
    let ts = TimestamperBuilder::new()
        .format(Format::Strftime("%Q".into()))
        .timezone(TimezoneSource::Utc)
        .build()
        .expect("builds");
    match ts.prefix_lines(&vec![b"a\n".to_vec()]) {
        Err(rusty_ts::Error::InvalidFormat(f)) => assert_eq!(f, "%Q"),
        other => panic!("expected InvalidFormat, got {other:?}"),
    }
    assert!(ts.prefix_lines(&Vec::new()).expect("no line, no rendering").is_empty());
}

#[test]
fn single_line_step_with_fixed_instant_is_exact() {
    let ts = TimestamperBuilder::new()
        .format(Format::Strftime("%Y-%m-%d %H:%M:%.S".into()))
        .timezone(TimezoneSource::Utc)
        .build()
        .expect("builds");
    let mut stamper = ts.stamper();
    let now = rusty_ts::time::instant::Timestamp::from_timestamp(1_779_460_245, 5_000).unwrap();
    let chunk = ts.prefix_line(&mut stamper, now, b"payload\xfe").expect("renders");
    assert_eq!(chunk, b"2026-05-22 14:30:45.000005  payload\xfe".to_vec());
}

#[test]
fn byte_stream_is_split_into_lines_and_prefixed() {
    let ts = TimestamperBuilder::new()
        .format(Format::Strftime("[x]".into()))
        .timezone(TimezoneSource::Utc)
        .build()
        .expect("builds");
    let out = ts.prefix_stream(b"one\ntwo\xff").expect("renders");
    assert_eq!(out, vec![b"[x]  one\n".to_vec(), b"[x]  two\xff".to_vec()]);
    assert!(ts.prefix_stream(b"").expect("renders").is_empty());
}
