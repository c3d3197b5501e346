use rusty_ts::cli::{arguments, ArgInfo};
use rusty_ts::compat_matrix::{format_flag_label, generate_matrix, generate_matrix_for};

#[test]
fn matrix_is_non_empty_and_lists_known_flags() {
    let m = generate_matrix();
    assert!(m.contains("Compatibility Matrix"));
    for needle in ["-i", "-s", "-m", "-r", "-u", "--tz", "--strict", "completions"] {
        assert!(m.contains(needle), "expected matrix to mention {needle:?}; matrix={m}");
    }
    assert!(m.contains("TZ=UTC"));
    assert!(m.contains("LC_ALL=C.UTF-8"));
    assert!(m.contains("Clean stdin EOF"));
    assert!(m.contains("Flag parse error"));
    assert!(m.contains("IO error"));
    assert!(m.contains("Broken-pipe"));
    assert!(m.contains("Unknown IANA name"));
    assert!(m.contains("mutex conflict"));
}

#[test]
fn matrix_is_deterministic() {
    let a = generate_matrix();
    let b = generate_matrix();
    assert_eq!(a, b, "matrix generation must be deterministic");
}

#[test]
fn matrix_flag_rows_are_exact() {
    let m = generate_matrix();
    assert!(m.starts_with("# rusty-ts Compatibility Matrix\n\nThis file is **generated**"));
    assert!(m.contains(
        "|------|--------------|-------------|\n| `-i, --incremental` | Elapsed since previous line (FR-005). | Same — matches moreutils `-i`. |\n"
    ));
    assert!(m.contains("| `--tz` | Render in named IANA zone (FR-019, Rusty extension). | **Rejected** — moreutils-only flag surface (FR-026). |\n"));
    assert!(m.contains(
        "| `format` | Positional strftime; wins over `RUSTY_TS_FORMAT` env (FR-004, FR-027). | Positional strftime only; env var ignored (FR-027). |\n\n## Subcommands"
    ));
    assert!(m.ends_with("| Unknown flag (Rusty-only flag in Strict) | n/a | `2` (FR-026) |\n"));
    let flags = &m[m.find("## Flags").unwrap()..m.find("## Subcommands").unwrap()];
    assert_eq!(flags.matches("\n| `").count(), arguments().len());
}

#[test]
fn matrix_skips_help_and_version_and_labels_unknown_ids() {
    let args = vec![
        ArgInfo { id: "help", short: Some('h'), long: Some("help") },
        ArgInfo { id: "mystery", short: Some('x'), long: None },
        ArgInfo { id: "version", short: Some('V'), long: Some("version") },
    ];
    let m = generate_matrix_for(&args);
    assert!(m.contains("| `-x` | (undocumented) | (undocumented) |\n"));
    assert!(!m.contains("--help"));
    assert!(!m.contains("--version"));
}

const COMMITTED_MATRIX: &str = "# rusty-ts Compatibility Matrix\n\nThis file is **generated** from the CLI definition by `cargo test --test compat_matrix`. Do not edit by hand — any change must come from `src/cli.rs`. CI fails on drift.\n\n## TZ-pinning disclosure\n\nByte-level fidelity against moreutils `ts` is verified under `TZ=UTC` and `LC_ALL=C.UTF-8` (see `fixtures/README.md` for the full capture protocol). Snapshot tests refuse to run if these env vars are not pinned.\n\n## Flags\n\n| Flag | Default mode | Strict mode |\n|------|--------------|-------------|\n| `-i, --incremental` | Elapsed since previous line (FR-005). | Same — matches moreutils `-i`. |\n| `-s, --since-start` | Elapsed since program start (FR-006). | Same — matches moreutils `-s`. |\n| `-m, --monotonic` | Monotonic clock for elapsed modes (FR-007). | Same — matches moreutils `-m`. |\n| `-r, --relative` | Recognized set: ISO-8601, RFC-3339, Unix epoch (FR-009). | Recognized set: full moreutils set (FR-025). |\n| `-u, --utc` | Force UTC rendering (FR-018, Rusty extension). | **Rejected** — moreutils-only flag surface (FR-026). |\n| `--tz` | Render in named IANA zone (FR-019, Rusty extension). | **Rejected** — moreutils-only flag surface (FR-026). |\n| `--strict` | Switch into Strict mode for the invocation (FR-021). | Treated as already-consumed (no-op). |\n| `--no-strict` | Force Default mode, overriding env/argv[0] (FR-021). | Treated as already-consumed (no-op). |\n| `format` | Positional strftime; wins over `RUSTY_TS_FORMAT` env (FR-004, FR-027). | Positional strftime only; env var ignored (FR-027). |\n\n## Subcommands\n\n| Subcommand | Default mode | Strict mode |\n|------------|--------------|-------------|\n| `completions <shell>` | Writes shell completion script to stdout (FR-028). | **Rejected** — moreutils-only flag surface (FR-026). |\n\n## Environment variables\n\n| Variable | Default mode | Strict mode |\n|----------|--------------|-------------|\n| `TZ` | Honored via system local time (FR-017). | Same. |\n| `RUSTY_TS_STRICT` | `1`/`true`/`yes` enables Strict mode (FR-022). | Same. |\n| `RUSTY_TS_FORMAT` | Implicit format when no positional arg (FR-027). Empty = unset (default format). | **Ignored** (FR-027). |\n\n## Exit codes\n\n| Path | Default mode | Strict mode |\n|------|--------------|-------------|\n| Clean stdin EOF | `0` | `0` |\n| Flag parse error | non-zero (clap default = `2`) | non-zero (clap default = `2`) |\n| IO error on stdin/stdout (non-broken-pipe) | `1` | `1` |\n| Broken-pipe on stdout | `0` (clean exit per HINT-004) | `0` |\n| Unknown IANA name (`--tz=...`) | `2` | n/a (flag rejected) |\n| `-u` + `--tz=...` mutex conflict | `2` (clap-enforced) | n/a (flags rejected) |\n| Unknown flag (Rusty-only flag in Strict) | n/a | `2` (FR-026) |\n";

#[test]
fn matrix_matches_committed_document() {
    assert_eq!(generate_matrix(), COMMITTED_MATRIX);
}

#[test]
fn flag_labels_follow_short_and_long_names() {
    let label = |id, short, long| format_flag_label(&ArgInfo { id, short, long });
    assert_eq!(label("incremental", Some('i'), Some("incremental")), "-i, --incremental");
    assert_eq!(label("tz", None, Some("tz")), "--tz");
    assert_eq!(label("x", Some('x'), None), "-x");
    assert_eq!(label("format", None, None), "format");
}
