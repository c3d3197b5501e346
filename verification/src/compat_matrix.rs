//! The compatibility matrix: a Markdown document that sets each flag of the
//! command line against its behaviour in Default and in Strict mode, with
//! the subcommands, environment variables and exit codes.

use vstd::prelude::*;
use crate::cli::{arguments, cli_argument_table, ArgInfo};
use crate::text::{push_char, same_text};

verus! {

/// The document's opening: title, provenance, the timezone-pinning
/// disclosure and the head of the flag table.
pub const MATRIX_HEADER: &'static str = "# rusty-ts Compatibility Matrix\n\nThis file is **generated** from the CLI definition by `cargo test --test compat_matrix`. Do not edit by hand — any change must come from `src/cli.rs`. CI fails on drift.\n\n## TZ-pinning disclosure\n\nByte-level fidelity against moreutils `ts` is verified under `TZ=UTC` and `LC_ALL=C.UTF-8` (see `fixtures/README.md` for the full capture protocol). Snapshot tests refuse to run if these env vars are not pinned.\n\n## Flags\n\n| Flag | Default mode | Strict mode |\n|------|--------------|-------------|\n";

/// The document's close: subcommands, environment variables, exit codes.
pub const MATRIX_TRAILER: &'static str = "\n## Subcommands\n\n| Subcommand | Default mode | Strict mode |\n|------------|--------------|-------------|\n| `completions <shell>` | Writes shell completion script to stdout (FR-028). | **Rejected** — moreutils-only flag surface (FR-026). |\n\n## Environment variables\n\n| Variable | Default mode | Strict mode |\n|----------|--------------|-------------|\n| `TZ` | Honored via system local time (FR-017). | Same. |\n| `RUSTY_TS_STRICT` | `1`/`true`/`yes` enables Strict mode (FR-022). | Same. |\n| `RUSTY_TS_FORMAT` | Implicit format when no positional arg (FR-027). Empty = unset (default format). | **Ignored** (FR-027). |\n\n## Exit codes\n\n| Path | Default mode | Strict mode |\n|------|--------------|-------------|\n| Clean stdin EOF | `0` | `0` |\n| Flag parse error | non-zero (clap default = `2`) | non-zero (clap default = `2`) |\n| IO error on stdin/stdout (non-broken-pipe) | `1` | `1` |\n| Broken-pipe on stdout | `0` (clean exit per HINT-004) | `0` |\n| Unknown IANA name (`--tz=...`) | `2` | n/a (flag rejected) |\n| `-u` + `--tz=...` mutex conflict | `2` (clap-enforced) | n/a (flags rejected) |\n| Unknown flag (Rusty-only flag in Strict) | n/a | `2` (FR-026) |\n";

/// The Default-mode and Strict-mode behaviour of the argument with this
/// identifier.
pub open spec fn behaviors(id: Seq<char>) -> (Seq<char>, Seq<char>) {
    if id == "incremental"@ {
        ("Elapsed since previous line (FR-005)."@, "Same — matches moreutils `-i`."@)
    } else if id == "since_start"@ {
        ("Elapsed since program start (FR-006)."@, "Same — matches moreutils `-s`."@)
    } else if id == "monotonic"@ {
        ("Monotonic clock for elapsed modes (FR-007)."@, "Same — matches moreutils `-m`."@)
    } else if id == "relative"@ {
        (
            "Recognized set: ISO-8601, RFC-3339, Unix epoch (FR-009)."@,
            "Recognized set: full moreutils set (FR-025)."@,
        )
    } else if id == "utc"@ {
        (
            "Force UTC rendering (FR-018, Rusty extension)."@,
            "**Rejected** — moreutils-only flag surface (FR-026)."@,
        )
    } else if id == "tz"@ {
        (
            "Render in named IANA zone (FR-019, Rusty extension)."@,
            "**Rejected** — moreutils-only flag surface (FR-026)."@,
        )
    } else if id == "strict"@ {
        (
            "Switch into Strict mode for the invocation (FR-021)."@,
            "Treated as already-consumed (no-op)."@,
        )
    } else if id == "no_strict"@ {
        (
            "Force Default mode, overriding env/argv[0] (FR-021)."@,
            "Treated as already-consumed (no-op)."@,
        )
    } else if id == "format"@ {
        (
            "Positional strftime; wins over `RUSTY_TS_FORMAT` env (FR-004, FR-027)."@,
            "Positional strftime only; env var ignored (FR-027)."@,
        )
    } else {
        ("(undocumented)"@, "(undocumented)"@)
    }
}

/// How an argument is written in the table: `-s, --long`, `-s`, `--long`,
/// or its identifier where it has neither (a positional).
pub open spec fn flag_label(a: ArgInfo) -> Seq<char> {
    match (a.short, a.long) {
        (Some(s), Some(l)) => seq!['-', s, ',', ' ', '-', '-'] + l@,
        (Some(s), None) => seq!['-', s],
        (None, Some(l)) => seq!['-', '-'] + l@,
        (None, None) => a.id@,
    }
}

/// The table row of one argument.
pub open spec fn matrix_row(a: ArgInfo) -> Seq<char> {
    let (default_b, strict_b) = behaviors(a.id@);
    seq!['|', ' ', '`'] + flag_label(a) + seq!['`', ' ', '|', ' '] + default_b + seq![' ', '|', ' ']
        + strict_b + seq![' ', '|', '\n']
}

/// The rows of the arguments, in order, without the built-in `help` and
/// `version` arguments.
pub open spec fn matrix_rows(args: Seq<ArgInfo>) -> Seq<char>
    decreases args.len(),
{
    if args.len() == 0 {
        Seq::empty()
    } else {
        let a = args.last();
        let rest = matrix_rows(args.drop_last());
        if a.id@ == "help"@ || a.id@ == "version"@ {
            rest
        } else {
            rest + matrix_row(a)
        }
    }
}

/// The whole document for the given arguments.
pub open spec fn matrix_text(args: Seq<ArgInfo>) -> Seq<char> {
    MATRIX_HEADER@ + matrix_rows(args) + MATRIX_TRAILER@
}

/// Appends how an argument is written in the table (see [`flag_label`]).
fn push_flag_label(out: &mut String, a: &ArgInfo)
    ensures
        final(out)@ == old(out)@ + flag_label(*a),
{
    match (a.short, a.long) {
        (Some(s), Some(l)) => {
            push_char(out, '-');
            push_char(out, s);
            push_char(out, ',');
            push_char(out, ' ');
            push_char(out, '-');
            push_char(out, '-');
            out.append(l);
        },
        (Some(s), None) => {
            push_char(out, '-');
            push_char(out, s);
        },
        (None, Some(l)) => {
            push_char(out, '-');
            push_char(out, '-');
            out.append(l);
        },
        (None, None) => {
            out.append(a.id);
        },
    }
    assert(out@ =~= old(out)@ + flag_label(*a));
}

/// How an argument is written in the table: `-s, --long`, `-s`, `--long`,
/// or its identifier (see [`flag_label`]).
pub fn format_flag_label(a: &ArgInfo) -> (r: String)
    ensures
        r@ == flag_label(*a),
{
    let mut out = String::new();
    push_flag_label(&mut out, a);
    assert(out@ =~= flag_label(*a));
    out
}

/// The Default-mode and Strict-mode behaviour of the argument with this
/// identifier (see [`behaviors`]).
fn behaviors_of(id: &str) -> (r: (&'static str, &'static str))
    ensures
        (r.0@, r.1@) == behaviors(id@),
{
    if same_text(id, "incremental") {
        ("Elapsed since previous line (FR-005).", "Same — matches moreutils `-i`.")
    } else if same_text(id, "since_start") {
        ("Elapsed since program start (FR-006).", "Same — matches moreutils `-s`.")
    } else if same_text(id, "monotonic") {
        ("Monotonic clock for elapsed modes (FR-007).", "Same — matches moreutils `-m`.")
    } else if same_text(id, "relative") {
        (
            "Recognized set: ISO-8601, RFC-3339, Unix epoch (FR-009).",
            "Recognized set: full moreutils set (FR-025).",
        )
    } else if same_text(id, "utc") {
        (
            "Force UTC rendering (FR-018, Rusty extension).",
            "**Rejected** — moreutils-only flag surface (FR-026).",
        )
    } else if same_text(id, "tz") {
        (
            "Render in named IANA zone (FR-019, Rusty extension).",
            "**Rejected** — moreutils-only flag surface (FR-026).",
        )
    } else if same_text(id, "strict") {
        (
            "Switch into Strict mode for the invocation (FR-021).",
            "Treated as already-consumed (no-op).",
        )
    } else if same_text(id, "no_strict") {
        (
            "Force Default mode, overriding env/argv[0] (FR-021).",
            "Treated as already-consumed (no-op).",
        )
    } else if same_text(id, "format") {
        (
            "Positional strftime; wins over `RUSTY_TS_FORMAT` env (FR-004, FR-027).",
            "Positional strftime only; env var ignored (FR-027).",
        )
    } else {
        ("(undocumented)", "(undocumented)")
    }
}

/// Renders the compatibility matrix for the given arguments (see
/// [`matrix_text`]).
pub fn generate_matrix_for(args: &Vec<ArgInfo>) -> (r: String)
    ensures
        r@ == matrix_text(args@),
{
    let mut out = MATRIX_HEADER.to_owned();
    let mut i: usize = 0;
    while i < args.len()
        invariant
            i <= args.len(),
            out@ == MATRIX_HEADER@ + matrix_rows(args@.take(i as int)),
        decreases args.len() - i,
    {
        let a = &args[i];
        let ghost before = out@;
        proof {
            assert(args@.take(i + 1).drop_last() =~= args@.take(i as int));
            assert(args@.take(i + 1).last() == args@[i as int]);
        }
        if !(same_text(a.id, "help") || same_text(a.id, "version")) {
            let (default_b, strict_b) = behaviors_of(a.id);
            push_char(&mut out, '|');
            push_char(&mut out, ' ');
            push_char(&mut out, '`');
            push_flag_label(&mut out, a);
            push_char(&mut out, '`');
            push_char(&mut out, ' ');
            push_char(&mut out, '|');
            push_char(&mut out, ' ');
            out.append(default_b);
            push_char(&mut out, ' ');
            push_char(&mut out, '|');
            push_char(&mut out, ' ');
            out.append(strict_b);
            push_char(&mut out, ' ');
            push_char(&mut out, '|');
            push_char(&mut out, '\n');
            assert(out@ =~= before + matrix_row(*a));
        }
        i = i + 1;
    }
    assert(args@.take(i as int) =~= args@);
    out.append(MATRIX_TRAILER);
    out
}

/// Renders the compatibility matrix of this command line (see
/// [`cli_argument_table`]).
pub fn generate_matrix() -> (r: String)
    ensures
        r@ == matrix_text(cli_argument_table()),
{
    generate_matrix_for(&arguments())
}

} // verus!
