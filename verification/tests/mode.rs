use rusty_ts::mode::{argv0_basename, env_var_is_truthy, resolve};
use rusty_ts::{CompatibilityMode, ExplicitChoice};

#[test]
fn explicit_no_strict_wins_over_everything() {
    let mode = resolve(Some(ExplicitChoice::Default), Some("1"), Some("ts"));
    assert_eq!(mode, CompatibilityMode::Default);
}

#[test]
fn explicit_strict_wins_over_env_and_argv() {
    let mode = resolve(Some(ExplicitChoice::Strict), Some("0"), Some("rusty-ts"));
    assert_eq!(mode, CompatibilityMode::Strict);
}

#[test]
fn env_truthy_enables_strict() {
    for truthy in ["1", "true", "TRUE", "yes", "Yes", "on", "  1  "] {
        assert_eq!(
            resolve(None, Some(truthy), Some("rusty-ts")),
            CompatibilityMode::Strict,
            "env {truthy:?} should enable Strict",
        );
    }
}

#[test]
fn env_falsy_or_unset_falls_through() {
    for falsy in ["0", "false", "no", "off", "", "  "] {
        assert_eq!(
            resolve(None, Some(falsy), Some("rusty-ts")),
            CompatibilityMode::Default,
            "env {falsy:?} should not enable Strict",
        );
    }
    assert_eq!(resolve(None, None, Some("rusty-ts")), CompatibilityMode::Default);
}

#[test]
fn argv0_ts_enables_strict() {
    assert_eq!(resolve(None, None, Some("ts")), CompatibilityMode::Strict);
}

#[test]
fn argv0_ts_case_insensitive() {
    assert_eq!(resolve(None, None, Some("TS")), CompatibilityMode::Strict);
    assert_eq!(resolve(None, None, Some("Ts")), CompatibilityMode::Strict);
}

#[test]
fn argv0_rusty_ts_stays_default() {
    assert_eq!(resolve(None, None, Some("rusty-ts")), CompatibilityMode::Default);
}

#[test]
fn precedence_table() {
    type Row = (
        Option<ExplicitChoice>,
        Option<&'static str>,
        Option<&'static str>,
        CompatibilityMode,
    );
    let cases: &[Row] = &[
        (None, None, None, CompatibilityMode::Default),
        (None, None, Some("rusty-ts"), CompatibilityMode::Default),
        (None, None, Some("ts"), CompatibilityMode::Strict),
        (None, Some("1"), Some("rusty-ts"), CompatibilityMode::Strict),
        (None, Some("true"), None, CompatibilityMode::Strict),
        (None, Some("0"), Some("ts"), CompatibilityMode::Strict),
        (None, Some("0"), Some("rusty-ts"), CompatibilityMode::Default),
        (Some(ExplicitChoice::Strict), Some("0"), Some("rusty-ts"), CompatibilityMode::Strict),
        (Some(ExplicitChoice::Strict), None, Some("ts"), CompatibilityMode::Strict),
        (Some(ExplicitChoice::Default), Some("1"), Some("ts"), CompatibilityMode::Default),
        (Some(ExplicitChoice::Default), None, Some("ts"), CompatibilityMode::Default),
    ];
    for (i, (explicit, env, argv, expected)) in cases.iter().enumerate() {
        let actual = resolve(*explicit, *env, *argv);
        assert_eq!(
            actual, *expected,
            "case {i}: explicit={explicit:?} env={env:?} argv={argv:?} expected {expected:?} got {actual:?}",
        );
    }
}

#[test]
fn truthy_values_ignore_case_and_unicode_white_space() {
    assert!(env_var_is_truthy("ON"));
    assert!(env_var_is_truthy("\t yEs \n"));
    assert!(env_var_is_truthy("\u{3000}true\u{2028}"));
    assert!(!env_var_is_truthy("1 1"));
    assert!(!env_var_is_truthy("yess"));
    assert!(!env_var_is_truthy("tru"));
    assert!(!env_var_is_truthy("\u{00e9}"));
}

#[test]
fn argv0_other_names_stay_default() {
    assert_eq!(resolve(None, None, Some("t")), CompatibilityMode::Default);
    assert_eq!(resolve(None, None, Some("tss")), CompatibilityMode::Default);
    assert_eq!(resolve(None, None, Some("")), CompatibilityMode::Default);
    assert_eq!(resolve(None, Some("off"), Some("TS")), CompatibilityMode::Strict);
}

#[test]
fn argv0_basename_strips_exe() {
    assert_eq!(argv0_basename("ts.exe").as_deref(), Some("ts"));
    assert_eq!(argv0_basename("ts").as_deref(), Some("ts"));
    assert_eq!(argv0_basename("./ts").as_deref(), Some("ts"),);
}

#[test]
fn argv0_basename_handles_path_components() {
    assert_eq!(argv0_basename("/usr/local/bin/ts").as_deref(), Some("ts"),);
}

#[test]
fn argv0_basename_agrees_with_path_file_stem() {
    for p in [
        "ts.exe", "/usr/bin/ts/", ".bashrc", "a.tar.gz", "..", ".", "/", "", "a/..", "x/.", "foo.", "dir//ts",
        "./", "a/./b.c", ".a.b",
    ] {
        let expected = std::path::Path::new(p).file_stem().and_then(|s| s.to_str()).map(|s| s.to_owned());
        assert_eq!(argv0_basename(p), expected, "path {p:?}");
    }
}
