use chrono::{TimeZone, Utc};
use rusty_ts::relative::{parse_token, relative_form, replace_matches, ParserKind, RelativeRewriter};
use rusty_ts::time::instant::Timestamp;
use rusty_ts::CompatibilityMode;

fn reference() -> Timestamp {
    let dt = Utc.with_ymd_and_hms(2026, 5, 22, 14, 30, 45).unwrap();
    Timestamp::from_timestamp(dt.timestamp(), 0).unwrap()
}

fn at(secs: i64) -> Timestamp {
    Timestamp::from_timestamp(secs, 0).unwrap()
}

#[test]
fn default_subset_recognizes_rfc3339() {
    let rewriter = RelativeRewriter::for_mode(CompatibilityMode::Default);
    let line = "Event at 2026-05-22T14:30:42Z happened.";
    let out = rewriter.rewrite(line, reference());
    assert!(out.contains("3s ago"), "expected '3s ago' replacement; got {out:?}");
}

#[test]
fn default_subset_recognizes_unix_epoch() {
    let rewriter = RelativeRewriter::for_mode(CompatibilityMode::Default);
    let epoch = reference().timestamp() - 65;
    let line = format!("epoch={epoch} now=...");
    let out = rewriter.rewrite(&line, reference());
    assert!(out.contains("1m5s ago"), "expected '1m5s ago' replacement; got {out:?}");
}

#[test]
fn line_without_timestamp_passes_through() {
    let rewriter = RelativeRewriter::for_mode(CompatibilityMode::Default);
    let line = "plain text no timestamp here";
    let out = rewriter.rewrite(line, reference());
    assert_eq!(out, line);
}

#[test]
fn default_mode_does_not_match_human_date_time() {
    let rewriter = RelativeRewriter::for_mode(CompatibilityMode::Default);
    let line = "Event at 2026-05-22 14:30:42 happened.";
    let out = rewriter.rewrite(line, reference());
    assert!(out.contains("14:30:42"), "time component should pass through in Default mode; got {out:?}");
}

#[test]
fn strict_mode_recognizes_human_date_time() {
    let rewriter = RelativeRewriter::for_mode(CompatibilityMode::Strict);
    let line = "Event at 2026-05-22 14:30:42 happened.";
    let out = rewriter.rewrite(line, reference());
    assert!(out.contains("3s ago"), "Strict mode should rewrite human date-time; got {out:?}");
}

#[test]
fn relative_form_zero_delta_is_now() {
    assert_eq!(relative_form(reference(), reference()), "now");
}

#[test]
fn relative_form_future_uses_in_prefix() {
    let future = at(reference().timestamp() + 45);
    let out = relative_form(reference(), future);
    assert!(out.starts_with("in "), "got {out:?}");
}

#[test]
fn relative_form_units() {
    let r = reference();
    let base = r.timestamp();
    assert_eq!(relative_form(r, at(base - 7)), "7s ago");
    assert_eq!(relative_form(r, at(base - 83)), "1m23s ago");
    assert_eq!(relative_form(r, at(base - 7200)), "2h ago");
    assert_eq!(relative_form(r, at(base - (86400 + 7200 + 59))), "1d2h ago");
    assert_eq!(relative_form(r, at(base + 45)), "in 45s");
    assert_eq!(relative_form(r, at(base + 3 * 86400)), "in 3d");
}

#[test]
fn relative_form_truncates_toward_zero() {
    let r = reference();
    let almost = Timestamp::from_timestamp(r.timestamp() - 1, 1).unwrap();
    assert_eq!(relative_form(r, almost), "now");
    let ahead = Timestamp::from_timestamp(r.timestamp(), 999_999_999).unwrap();
    assert_eq!(relative_form(r, ahead), "now");
    let later = Timestamp::from_timestamp(r.timestamp() + 1, 500_000_000).unwrap();
    assert_eq!(relative_form(r, later), "in 1s");
}

#[test]
fn full_line_rewrite_is_exact() {
    let rewriter = RelativeRewriter::for_mode(CompatibilityMode::Default);
    let r = reference();
    let line = format!(
        "a {} b 2026-05-22T14:30:40+00:00 c 2026-05-21 d",
        r.timestamp() - 10
    );
    let out = rewriter.rewrite(&line, r);
    assert_eq!(out, "a 10s ago b 5s ago c 1d14h ago d");
}

#[test]
fn rfc3339_with_offset_and_fraction() {
    let rewriter = RelativeRewriter::for_mode(CompatibilityMode::Default);
    let out = rewriter.rewrite("x 2026-05-22T16:30:40.5+02:00 y", reference());
    assert_eq!(out, "x 4s ago y");
}

#[test]
fn overlapping_matches_keep_the_earliest_and_most_specific() {
    let strict = RelativeRewriter::for_mode(CompatibilityMode::Strict);
    // The date-time pattern and the date pattern both start at the date;
    // the date-time one comes first and wins.
    let out = strict.rewrite("2026-05-22 14:30:44 done", reference());
    assert_eq!(out, "1s ago done");
    let default = RelativeRewriter::for_mode(CompatibilityMode::Default);
    let out = default.rewrite("2026-05-22 14:30:44 done", reference());
    assert_eq!(out, "14h30m ago 14:30:44 done");
}

#[test]
fn non_ascii_text_around_timestamps_survives() {
    let rewriter = RelativeRewriter::for_mode(CompatibilityMode::Default);
    let out = rewriter.rewrite("héllo 2026-05-22T14:30:43Z wörld ✓", reference());
    assert_eq!(out, "héllo 2s ago wörld ✓");
}

#[test]
fn unreadable_matches_are_left_alone() {
    let rewriter = RelativeRewriter::for_mode(CompatibilityMode::Default);
    // A date the pattern matches but no calendar has.
    let out = rewriter.rewrite("on 2026-13-45 then", reference());
    assert_eq!(out, "on 2026-13-45 then");
}

#[test]
fn parse_token_reads_each_kind() {
    let t = parse_token("1779460245.25", ParserKind::UnixEpoch).unwrap();
    assert_eq!((t.timestamp(), t.timestamp_subsec_nanos()), (1779460245, 250_000_000));
    let t = parse_token("1779460245.1234567899", ParserKind::UnixEpoch).unwrap();
    assert_eq!(t.timestamp_subsec_nanos(), 123_456_789);
    let t = parse_token("1779460245", ParserKind::UnixEpoch).unwrap();
    assert_eq!((t.timestamp(), t.timestamp_subsec_nanos()), (1779460245, 0));
    assert!(parse_token("17794602x5", ParserKind::UnixEpoch).is_none());
    assert!(parse_token("99999999999999999999", ParserKind::UnixEpoch).is_none());
    let t = parse_token("-12", ParserKind::UnixEpoch).unwrap();
    assert_eq!(t.timestamp(), -12);
    let t = parse_token("2026-05-22", ParserKind::Iso8601).unwrap();
    assert_eq!(t.timestamp(), reference().timestamp() - (14 * 3600 + 30 * 60 + 45));
    let t = parse_token("2026-05-22T14:30:45Z", ParserKind::Rfc3339).unwrap();
    assert_eq!(t, reference());
    let t = parse_token("2026-05-22 14:30:45", ParserKind::HumanDateTime).unwrap();
    assert_eq!(t, reference());
    assert!(parse_token("2026-05-22", ParserKind::Rfc3339).is_none());
}

#[test]
fn for_mode_compiles_every_pattern() {
    let default = RelativeRewriter::for_mode(CompatibilityMode::Default);
    let strict = RelativeRewriter::for_mode(CompatibilityMode::Strict);
    // Each pattern is in use: one timestamp of each kind is rewritten.
    let line = "2026-05-22T14:30:44Z 2026-05-22 1779460244 2026-05-22 14:30:44";
    assert_eq!(
        default.rewrite(line, reference()),
        "1s ago 14h30m ago 1s ago 14h30m ago 14:30:44"
    );
    assert_eq!(strict.rewrite(line, reference()), "1s ago 14h30m ago 1s ago 1s ago");
}

#[test]
fn matches_are_replaced_in_line_order_whatever_the_pattern_order() {
    let rewriter = RelativeRewriter::for_mode(CompatibilityMode::Default);
    let epoch = reference().timestamp() - 100;
    let line = format!("a {epoch} b 2026-05-22 c 2026-05-22T14:30:40Z d");
    let out = rewriter.rewrite(&line, reference());
    assert_eq!(out, "a 1m40s ago b 14h30m ago c 5s ago d");
}

#[test]
fn zero_second_unit_is_left_out() {
    let r = reference();
    let base = r.timestamp();
    assert_eq!(relative_form(r, at(base - 120)), "2m ago");
    assert_eq!(relative_form(r, at(base - 86400)), "1d ago");
    assert_eq!(relative_form(r, at(base - 3 * 3600 - 60)), "3h1m ago");
}

#[test]
fn given_matches_are_sorted_kept_and_replaced() {
    // "a" read as epoch seconds fails and stays; the date is replaced; the
    // span inside the date starts inside a kept match and is dropped.
    let line = "a 2026-05-22 b";
    let matches = vec![(2, 12, ParserKind::Iso8601), (0, 1, ParserKind::UnixEpoch), (4, 8, ParserKind::Rfc3339)];
    assert_eq!(replace_matches(line, &matches, reference()), "a 14h30m ago b");
    assert_eq!(replace_matches(line, &vec![(0, 1, ParserKind::UnixEpoch)], reference()), line);
}
