use rusty_ts::{CompatibilityMode, ElapsedAnchor, Error, Format, Timestamper, TimestamperBuilder, TimezoneSource};

fn assert_send<T: Send>() {}
fn assert_send_sync<T: Send + Sync>() {}

#[test]
fn builder_rejects_utc_plus_tz_name() {
    let result = TimestamperBuilder::new().utc(true).tz_name("Asia/Tokyo").build();
    match result {
        Err(Error::InvalidUtcWithNamedTz { tz }) => assert_eq!(tz, "Asia/Tokyo"),
        other => panic!("expected InvalidUtcWithNamedTz, got {other:?}"),
    }
}

#[test]
fn builder_rejects_unknown_iana_name() {
    let result = TimestamperBuilder::new().tz_name("Atlantis/Atlantica").build();
    match result {
        Err(Error::InvalidIanaName(name)) => assert_eq!(name, "Atlantis/Atlantica"),
        other => panic!("expected InvalidIanaName, got {other:?}"),
    }
}

#[test]
fn builder_utc_alone_succeeds() {
    let ts = TimestamperBuilder::new().utc(true).build().expect("builds");
    assert!(matches!(ts.timezone(), TimezoneSource::Utc));
}

#[test]
fn builder_tz_name_alone_succeeds() {
    let ts = TimestamperBuilder::new().tz_name("Asia/Tokyo").build().expect("builds");
    assert!(matches!(ts.timezone(), TimezoneSource::Named(_)));
}

#[test]
fn builder_local_is_default() {
    let ts = TimestamperBuilder::new().build().expect("builds");
    assert!(matches!(ts.timezone(), TimezoneSource::Local));
}

#[test]
fn builder_timezone_override_takes_precedence() {
    let ts = TimestamperBuilder::new()
        .utc(true)
        .timezone(TimezoneSource::Local)
        .build()
        .expect("builds");
    assert!(matches!(ts.timezone(), TimezoneSource::Local));
}

#[test]
fn byte_typed_iterator_preserves_non_utf8_payload() {
    let ts = TimestamperBuilder::new()
        .format(Format::Strftime("[%H:%M:%S]".into()))
        .utc(true)
        .build()
        .expect("builds");
    let input = vec![b"hello\xff\n".to_vec(), b"world\n".to_vec()];
    let chunks: Vec<Vec<u8>> = ts.prefix_lines(&input).expect("renders");
    assert_eq!(chunks.len(), 2, "expected two output chunks");
    assert!(chunks[0].contains(&0xFF), "first chunk should contain raw 0xFF byte; got {:?}", chunks[0]);
    assert!(chunks[1].ends_with(b"  world\n"), "second chunk should end with '  world\\n'; got {:?}", chunks[1]);
}

#[test]
fn lib_api_timestamper_is_send() {
    assert_send::<Timestamper>();
}

#[test]
fn builder_is_send_sync() {
    assert_send_sync::<TimestamperBuilder>();
}

#[test]
fn error_is_send_sync() {
    assert_send_sync::<Error>();
}

#[test]
fn builder_chain_methods_return_self() {
    let _ = TimestamperBuilder::new()
        .format(Format::Default)
        .utc(false)
        .tz_name("UTC")
        .timezone(TimezoneSource::Utc)
        .compat(CompatibilityMode::Default)
        .elapsed(ElapsedAnchor::Absolute)
        .build()
        .expect("builds");
}

#[test]
fn default_format_under_utc_is_deterministic_shape() {
    let ts = TimestamperBuilder::new().utc(true).build().expect("builds");
    let chunks: Vec<Vec<u8>> = ts.prefix_lines(&vec![b"abc\n".to_vec()]).expect("renders");
    let s = std::str::from_utf8(&chunks[0]).expect("utf-8");
    let re = regex::Regex::new(r"^[A-Z][a-z]{2} [ 0-9]\d \d{2}:\d{2}:\d{2}  abc\n$").unwrap();
    assert!(re.is_match(s), "default format shape failed: {s:?}");
}

#[test]
fn custom_format_string_is_honored() {
    let ts = TimestamperBuilder::new()
        .utc(true)
        .format(Format::Strftime("[%H:%M]".into()))
        .build()
        .expect("builds");
    let chunks: Vec<Vec<u8>> = ts.prefix_lines(&vec![b"abc\n".to_vec()]).expect("renders");
    let s = std::str::from_utf8(&chunks[0]).expect("utf-8");
    let re = regex::Regex::new(r"^\[\d{2}:\d{2}\]  abc\n$").unwrap();
    assert!(re.is_match(s), "custom format failed: {s:?}");
}

#[test]
fn string_lines_adapter_yields_prefixed_strings() {
    let ts = TimestamperBuilder::new()
        .utc(true)
        .format(Format::Strftime("[%H:%M]".into()))
        .build()
        .expect("builds");
    let lines = vec!["alpha\n".to_string(), "beta\n".to_string()];
    let out: Vec<String> = ts.prefix_string_lines(&lines).expect("renders");
    assert_eq!(out.len(), 2);
    assert!(out[0].ends_with("  alpha\n"), "got {:?}", out[0]);
    assert!(out[1].ends_with("  beta\n"), "got {:?}", out[1]);
}

#[test]
fn direct_choice_bypasses_the_utc_and_name_checks() {
    let ts = TimestamperBuilder::new()
        .utc(true)
        .tz_name("Asia/Tokyo")
        .timezone(TimezoneSource::Utc)
        .build()
        .expect("the direct choice wins");
    assert!(matches!(ts.timezone(), TimezoneSource::Utc));
    let ts = TimestamperBuilder::new()
        .tz_name("Not/AZone")
        .timezone(TimezoneSource::Local)
        .build()
        .expect("the direct choice wins");
    assert!(matches!(ts.timezone(), TimezoneSource::Local));
    let refused = TimestamperBuilder::new().utc(true).tz_name("Asia/Tokyo").build();
    assert!(matches!(refused, Err(Error::InvalidUtcWithNamedTz { .. })));
}

#[test]
fn settings_carry_through_build() {
    let ts = TimestamperBuilder::new()
        .compat(CompatibilityMode::Strict)
        .elapsed(ElapsedAnchor::SincePreviousLine)
        .build()
        .expect("builds");
    assert_eq!(ts.compat(), CompatibilityMode::Strict);
    assert_eq!(ts.elapsed_anchor(), ElapsedAnchor::SincePreviousLine);
    let named = TimestamperBuilder::new().tz_name("Europe/Paris").build().expect("builds");
    match named.timezone() {
        TimezoneSource::Named(z) => assert_eq!(z.name(), "Europe/Paris"),
        other => panic!("expected Europe/Paris, got {other:?}"),
    }
}

#[test]
fn error_messages_match_display_text() {
    assert_eq!(
        Error::InvalidUtcWithNamedTz { tz: "Asia/Tokyo".into() }.message(),
        "--utc and --tz=<name> are mutually exclusive; got --tz=Asia/Tokyo"
    );
    assert_eq!(Error::InvalidIanaName("X/Y".into()).message(), "unknown IANA timezone: X/Y");
    assert_eq!(Error::InvalidFormat("%Q".into()).message(), "invalid strftime format: %Q");
    let io = Error::Io(std::io::Error::new(std::io::ErrorKind::Other, "boom"));
    assert_eq!(io.message(), "io error: boom");
}

#[test]
fn io_error_converts_into_the_io_variant() {
    let e: Error = std::io::Error::other("boom").into();
    assert!(matches!(e, Error::Io(_)));
    assert_eq!(e.message(), "io error: boom");
}
