use chrono::{TimeZone, Utc};
use rusty_ts::pipeline::{
    prefix_output, prefix_start, prefix_stream, relative_output, relative_stream, PrefixConfig, PrefixSource,
    RelativeConfig,
};
use rusty_ts::lines::split_lines;
use rusty_ts::relative::RelativeRewriter;
use rusty_ts::time::clock::{Clock, Fixed};
use rusty_ts::time::format::DEFAULT_FORMAT;
use rusty_ts::time::instant::Timestamp;
use rusty_ts::{CompatibilityMode, TimezoneSource};

fn fixed_clock() -> Fixed {
    let dt = Utc.with_ymd_and_hms(2026, 5, 22, 14, 30, 45).unwrap();
    Fixed::new(Timestamp::from_timestamp(dt.timestamp(), 0).unwrap())
}

/// Splits input the way `BufRead::read_until(b'\n')` hands it out.
fn lines_of(input: &[u8]) -> Vec<Vec<u8>> {
    let mut out = Vec::new();
    let mut cur = Vec::new();
    for &b in input {
        cur.push(b);
        if b == b'\n' {
            out.push(std::mem::take(&mut cur));
        }
    }
    if !cur.is_empty() {
        out.push(cur);
    }
    out
}

/// Drives the prefix pipeline over the input as the command line does.
fn run_prefix(input: &[u8], cfg: &PrefixConfig) -> Vec<u8> {
    prefix_stream(cfg, input).expect("renders").concat()
}

/// The same, one line at a time, as the command line drives it.
fn run_prefix_by_line(input: &[u8], cfg: &PrefixConfig) -> Vec<u8> {
    let mut stamper = prefix_start(cfg);
    let mut out = Vec::new();
    for line in lines_of(input) {
        let now = cfg.clock.now();
        out.extend(prefix_output(cfg, &mut stamper, now, &line).expect("renders"));
    }
    out
}

#[test]
fn line_by_line_and_whole_stream_agree() {
    let clock = fixed_clock();
    let tz = TimezoneSource::Utc;
    let cfg = PrefixConfig { format: DEFAULT_FORMAT, tz: &tz, clock: &clock, source: PrefixSource::Absolute };
    let input: &[u8] = b"hello\xff\nworld";
    assert_eq!(run_prefix(input, &cfg), run_prefix_by_line(input, &cfg));
}

#[test]
fn absolute_default_format() {
    let clock = fixed_clock();
    let tz = TimezoneSource::Utc;
    let cfg = PrefixConfig { format: DEFAULT_FORMAT, tz: &tz, clock: &clock, source: PrefixSource::Absolute };
    let out = run_prefix(b"hello\nworld\n", &cfg);
    let s = String::from_utf8(out).expect("utf-8");
    assert_eq!(s, "May 22 14:30:45  hello\nMay 22 14:30:45  world\n");
}

#[test]
fn since_program_start_renders_zero_on_first_line() {
    let clock = fixed_clock();
    let tz = TimezoneSource::Utc;
    let cfg = PrefixConfig { format: "%H:%M:%S", tz: &tz, clock: &clock, source: PrefixSource::SinceProgramStart };
    let out = run_prefix(b"a\n", &cfg);
    let s = String::from_utf8(out).expect("utf-8");
    assert!(s.starts_with("00:00:00  "), "expected elapsed-zero prefix; got {s:?}");
}

#[test]
fn empty_stdin_produces_no_output() {
    let clock = fixed_clock();
    let tz = TimezoneSource::Utc;
    let cfg = PrefixConfig { format: DEFAULT_FORMAT, tz: &tz, clock: &clock, source: PrefixSource::Absolute };
    let out = run_prefix(b"", &cfg);
    assert!(out.is_empty(), "expected no output; got {:?}", out);
}

#[test]
fn partial_final_line_is_emitted_without_added_newline() {
    let clock = fixed_clock();
    let tz = TimezoneSource::Utc;
    let cfg = PrefixConfig { format: DEFAULT_FORMAT, tz: &tz, clock: &clock, source: PrefixSource::Absolute };
    let out = run_prefix(b"incomplete", &cfg);
    let s = String::from_utf8(out).expect("utf-8");
    assert_eq!(s, "May 22 14:30:45  incomplete");
    assert!(!s.ends_with('\n'));
}

#[test]
fn binary_payload_passes_through() {
    let input: &[u8] = b"hello\xff\nworld\n";
    let clock = fixed_clock();
    let tz = TimezoneSource::Utc;
    let cfg = PrefixConfig { format: DEFAULT_FORMAT, tz: &tz, clock: &clock, source: PrefixSource::Absolute };
    let out = run_prefix(input, &cfg);
    assert!(out.contains(&0xFF), "expected 0xFF byte to pass through; got {:?}", out);
    assert_eq!(out, b"May 22 14:30:45  hello\xff\nMay 22 14:30:45  world\n".to_vec());
}

#[test]
fn incremental_prefix_measures_from_previous_line() {
    let tz = TimezoneSource::Utc;
    let start = fixed_clock();
    let cfg = PrefixConfig { format: "%H:%M:%.S", tz: &tz, clock: &start, source: PrefixSource::SincePreviousLine };
    let mut stamper = prefix_start(&cfg);
    let t0 = start.now().timestamp();
    let at = |s: i64, n: u32| Timestamp::from_timestamp(t0 + s, n).unwrap();
    let a = prefix_output(&cfg, &mut stamper, at(3, 0), b"a\n").unwrap();
    let b = prefix_output(&cfg, &mut stamper, at(3, 250_000_000), b"b\n").unwrap();
    let c = prefix_output(&cfg, &mut stamper, at(2, 0), b"c\n").unwrap();
    let d = prefix_output(&cfg, &mut stamper, at(3_700, 0), b"d\n").unwrap();
    assert_eq!(a, b"00:00:03.000000  a\n");
    assert_eq!(b, b"00:00:00.250000  b\n");
    assert_eq!(c, b"00:00:00.000000  c\n");
    assert_eq!(d, b"01:01:38.000000  d\n");
}

#[test]
fn since_start_prefix_measures_from_start() {
    let tz = TimezoneSource::Utc;
    let start = fixed_clock();
    let cfg = PrefixConfig { format: "%H:%M:%S", tz: &tz, clock: &start, source: PrefixSource::SinceProgramStart };
    let mut stamper = prefix_start(&cfg);
    let t0 = start.now().timestamp();
    let at = |s: i64| Timestamp::from_timestamp(t0 + s, 0).unwrap();
    assert_eq!(prefix_output(&cfg, &mut stamper, at(5), b"x").unwrap(), b"00:00:05  x");
    assert_eq!(prefix_output(&cfg, &mut stamper, at(65), b"y").unwrap(), b"00:01:05  y");
}

#[test]
fn relative_pipeline_rewrites_and_replaces_invalid_utf8() {
    let rewriter = RelativeRewriter::for_mode(CompatibilityMode::Default);
    let reference = fixed_clock().now();
    let cfg = RelativeConfig { rewriter: &rewriter, reference };
    let out = relative_output(&cfg, b"at 2026-05-22T14:30:40Z \xff\n");
    assert_eq!(out, "at 5s ago \u{fffd}\n".as_bytes().to_vec());
    let plain = relative_output(&cfg, b"nothing here\n");
    assert_eq!(plain, b"nothing here\n".to_vec());
}

#[test]
fn split_lines_keeps_newlines_and_a_last_partial_line() {
    assert_eq!(split_lines(b"a\nb"), vec![b"a\n".to_vec(), b"b".to_vec()]);
    assert_eq!(split_lines(b"\n\n"), vec![b"\n".to_vec(), b"\n".to_vec()]);
    assert!(split_lines(b"").is_empty());
    let input: &[u8] = b"x\xff\ny\n";
    assert_eq!(split_lines(input), lines_of(input));
}

#[test]
fn whole_stream_prefixes_each_line_with_two_spaces() {
    let clock = fixed_clock();
    let tz = TimezoneSource::Utc;
    let cfg = PrefixConfig { format: "%H:%M:%S", tz: &tz, clock: &clock, source: PrefixSource::Absolute };
    let out = prefix_stream(&cfg, b"a\nb").expect("renders");
    assert_eq!(out, vec![b"14:30:45  a\n".to_vec(), b"14:30:45  b".to_vec()]);
    let cfg = PrefixConfig { format: "%H:%M:%S", tz: &tz, clock: &clock, source: PrefixSource::SinceProgramStart };
    let out = prefix_stream(&cfg, b"a\n").expect("renders");
    assert_eq!(out, vec![b"00:00:00  a\n".to_vec()]);
    assert!(prefix_stream(&cfg, b"").expect("renders").is_empty());
}

#[test]
fn whole_relative_stream_rewrites_each_line() {
    let rewriter = RelativeRewriter::for_mode(CompatibilityMode::Default);
    let reference = fixed_clock().now();
    let cfg = RelativeConfig { rewriter: &rewriter, reference };
    let out = relative_stream(&cfg, b"at 2026-05-22T14:30:40Z\nplain\nbad \xff");
    assert_eq!(out, vec![b"at 5s ago\n".to_vec(), b"plain\n".to_vec(), "bad \u{fffd}".as_bytes().to_vec()]);
    assert!(relative_stream(&cfg, b"").is_empty());
}
