use rusty_ts::cli::{exit_code, plan_run, strict_refusal, Cli, ClockChoice, CliCommand, RunEnd, RunPlan};
use rusty_ts::time::instant::Timestamp;
use rusty_ts::pipeline::PrefixSource;
use rusty_ts::{CompatibilityMode, Error, ExplicitChoice, TimezoneSource};

fn bare() -> Cli {
    Cli {
        incremental: false,
        since_start: false,
        monotonic: false,
        relative: false,
        utc: false,
        tz: None,
        strict: false,
        no_strict: false,
        format: None,
        subcommand: None,
    }
}

#[test]
fn explicit_choice_signals_strict_when_strict_flag_set() {
    let cli = Cli { strict: true, ..bare() };
    assert_eq!(cli.explicit_compat_choice(), Some(ExplicitChoice::Strict));
}

#[test]
fn explicit_choice_signals_default_when_no_strict_flag_set() {
    let cli = Cli { no_strict: true, ..bare() };
    assert_eq!(cli.explicit_compat_choice(), Some(ExplicitChoice::Default));
}

#[test]
fn explicit_choice_none_when_neither_flag() {
    assert_eq!(bare().explicit_compat_choice(), None);
    assert_eq!(Cli { strict: true, no_strict: true, ..bare() }.explicit_compat_choice(), None);
}

#[test]
fn validate_passes_when_only_utc() {
    let cli = Cli { utc: true, ..bare() };
    assert!(cli.validate().is_ok());
    match (Cli { utc: true, tz: Some("Asia/Tokyo".into()), ..bare() }).validate() {
        Err(Error::InvalidUtcWithNamedTz { tz }) => assert_eq!(tz, "Asia/Tokyo"),
        other => panic!("expected the conflict, got {other:?}"),
    }
}

fn no_args() -> Vec<String> {
    Vec::new()
}

fn args(list: &[&str]) -> Vec<String> {
    list.iter().map(|a| a.to_string()).collect()
}

#[test]
fn strict_mode_refuses_extension_flags() {
    for (cli, argv, expected) in [
        (Cli { utc: true, ..bare() }, args(&["-u"]), "Unknown option: u\nusage: ts [-r] [format]\n"),
        (
            Cli { tz: Some("Asia/Tokyo".into()), ..bare() },
            args(&["--tz=Asia/Tokyo"]),
            "Unknown option: tz\nusage: ts [-r] [format]\n",
        ),
        (
            Cli { subcommand: Some(CliCommand::Completions { shell: clap_complete::Shell::Bash }), ..bare() },
            args(&["completions", "bash"]),
            "Unknown option: completions\nusage: ts [-r] [format]\n",
        ),
    ] {
        match plan_run(cli, &argv, CompatibilityMode::Strict, None, None) {
            Err(r) => {
                assert_eq!(r.message, expected);
                assert_eq!(r.exit_code, 2);
            },
            Ok(p) => panic!("expected a refusal, got {p:?}"),
        }
    }
}

#[test]
fn strict_refusal_names_each_refused_option_in_order() {
    assert_eq!(
        strict_refusal(&args(&["-iu", "--utc", "%H", "--tz", "Asia/Tokyo", "--", "-u"])),
        "Unknown option: u\nUnknown option: utc\nUnknown option: tz\nusage: ts [-r] [format]\n"
    );
    assert_eq!(strict_refusal(&args(&["-s", "--strict"])), "usage: ts [-r] [format]\n");
}

#[test]
fn fixed_clock_and_monotonic_flag_choose_the_clock() {
    let pinned = Timestamp::from_timestamp(1779480337, 0).unwrap();
    match plan_run(bare(), &no_args(), CompatibilityMode::Default, None, Some("2026-05-22T20:05:37Z")) {
        Ok(RunPlan::Prefix { clock, .. }) => assert_eq!(clock, ClockChoice::Fixed(pinned)),
        other => panic!("unexpected {other:?}"),
    }
    match plan_run(bare(), &no_args(), CompatibilityMode::Default, None, Some("not a date")) {
        Ok(RunPlan::Prefix { clock, .. }) => assert_eq!(clock, ClockChoice::Wall),
        other => panic!("unexpected {other:?}"),
    }
    match plan_run(Cli { monotonic: true, since_start: true, ..bare() }, &no_args(), CompatibilityMode::Default, None, None) {
        Ok(RunPlan::Prefix { clock, .. }) => assert_eq!(clock, ClockChoice::Monotonic),
        other => panic!("unexpected {other:?}"),
    }
    match plan_run(Cli { monotonic: true, ..bare() }, &no_args(), CompatibilityMode::Default, None, None) {
        Ok(RunPlan::Prefix { clock, .. }) => assert_eq!(clock, ClockChoice::Wall),
        other => panic!("unexpected {other:?}"),
    }
}

#[test]
fn utc_with_tz_and_unknown_zone_are_refused() {
    let r = plan_run(Cli { utc: true, tz: Some("Asia/Tokyo".into()), ..bare() }, &no_args(), CompatibilityMode::Default, None, None)
        .unwrap_err();
    assert_eq!(r.message, "rusty-ts: --utc and --tz=<name> are mutually exclusive; got --tz=Asia/Tokyo\n");
    assert_eq!(r.exit_code, 2);
    let r = plan_run(Cli { tz: Some("Atlantis/Atlantica".into()), ..bare() }, &no_args(), CompatibilityMode::Default, None, None)
        .unwrap_err();
    assert_eq!(r.message, "rusty-ts: unknown IANA timezone: Atlantis/Atlantica\n");
    assert_eq!(r.exit_code, 2);
}

#[test]
fn format_comes_from_positional_then_environment_then_default() {
    let plan = |cli: Cli, compat, env: Option<&str>| match plan_run(cli, &no_args(), compat, env, None) {
        Ok(RunPlan::Prefix { format, .. }) => format,
        other => panic!("expected prefixing, got {other:?}"),
    };
    assert_eq!(plan(Cli { format: Some("[%H]".into()), ..bare() }, CompatibilityMode::Default, Some("%M")), "[%H]");
    assert_eq!(plan(bare(), CompatibilityMode::Default, Some("[%M]")), "[%M]");
    assert_eq!(plan(bare(), CompatibilityMode::Default, Some("")), "%b %d %H:%M:%S");
    assert_eq!(plan(bare(), CompatibilityMode::Strict, Some("[%M]")), "%b %d %H:%M:%S");
    assert_eq!(plan(bare(), CompatibilityMode::Default, None), "%b %d %H:%M:%S");
}

#[test]
fn plan_picks_source_zone_and_mode() {
    match plan_run(Cli { incremental: true, tz: Some("Asia/Tokyo".into()), ..bare() }, &no_args(), CompatibilityMode::Default, None, None) {
        Ok(RunPlan::Prefix { source, tz, .. }) => {
            assert_eq!(source, PrefixSource::SincePreviousLine);
            assert!(matches!(tz, TimezoneSource::Named(_)));
        },
        other => panic!("unexpected {other:?}"),
    }
    match plan_run(Cli { since_start: true, utc: true, ..bare() }, &no_args(), CompatibilityMode::Default, None, None) {
        Ok(RunPlan::Prefix { source, tz, .. }) => {
            assert_eq!(source, PrefixSource::SinceProgramStart);
            assert!(matches!(tz, TimezoneSource::Utc));
        },
        other => panic!("unexpected {other:?}"),
    }
    assert!(matches!(
        plan_run(Cli { relative: true, ..bare() }, &no_args(), CompatibilityMode::Strict, None, None),
        Ok(RunPlan::Relative(CompatibilityMode::Strict, ClockChoice::Wall))
    ));
    assert!(matches!(
        plan_run(
            Cli { subcommand: Some(CliCommand::Completions { shell: clap_complete::Shell::Zsh }), ..bare() },
            &no_args(),
            CompatibilityMode::Default,
            None,
            None
        ),
        Ok(RunPlan::Completions(clap_complete::Shell::Zsh))
    ));
}

#[test]
fn closed_output_is_a_clean_end() {
    assert_eq!(exit_code(RunEnd::Finished), 0);
    assert_eq!(exit_code(RunEnd::OutputClosed), 0);
    assert_eq!(exit_code(RunEnd::Failed), 1);
}
