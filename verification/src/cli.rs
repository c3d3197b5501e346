//! The command-line surface: the parsed arguments as plain values, their
//! post-parse checks, the table of arguments, and the decisions that turn an
//! invocation into a plan of what to run.

use vstd::prelude::*;
use crate::error::{error_message, Error};
use crate::mode::{CompatibilityMode, ExplicitChoice};
use crate::pipeline::PrefixSource;
use crate::relative::{parse_token, token_instant, ParserKind};
use crate::text::{chars_of, push_char, same_text, string_of};
use crate::texts;
use crate::time::format::DEFAULT_FORMAT;
use crate::time::instant::Timestamp;
use crate::time::render::iana_zone_known;
use crate::time::tz::TimezoneSource;

verus! {

/// Marks `clap_complete::Shell` as a type the verified code may carry.
#[verifier::external_type_specification]
#[verifier::external_body]
pub struct ExShell(clap_complete::Shell);

/// The parsed command line.
#[derive(Debug)]
pub struct Cli {
    /// `-i`, `--incremental`: elapsed time since the previous line.
    pub incremental: bool,
    /// `-s`, `--since-start`: elapsed time since the start.
    pub since_start: bool,
    /// `-m`, `--monotonic`: monotonic clock for elapsed times.
    pub monotonic: bool,
    /// `-r`, `--relative`: rewrite recognised timestamps in relative form.
    pub relative: bool,
    /// `-u`, `--utc`: render in UTC.
    pub utc: bool,
    /// `--tz=<IANA-NAME>`: render in the named zone.
    pub tz: Option<String>,
    /// `--strict`, `--moreutils-compat`.
    pub strict: bool,
    /// `--no-strict`, `--no-moreutils-compat`.
    pub no_strict: bool,
    /// The positional strftime format.
    pub format: Option<String>,
    /// A subcommand.
    pub subcommand: Option<CliCommand>,
}

/// Subcommands.
#[derive(Debug)]
pub enum CliCommand {
    /// Writes a shell-completion script to standard output.
    Completions { shell: clap_complete::Shell },
}

/// The explicit mode choice the two flags make: one alone decides, neither
/// or both make none.
pub open spec fn explicit_choice(strict: bool, no_strict: bool) -> Option<ExplicitChoice> {
    if strict && !no_strict {
        Some(ExplicitChoice::Strict)
    } else if no_strict && !strict {
        Some(ExplicitChoice::Default)
    } else {
        None
    }
}

impl Cli {
    /// The explicit mode choice of `--strict` / `--no-strict` (see
    /// [`explicit_choice`]).
    pub fn explicit_compat_choice(&self) -> (r: Option<ExplicitChoice>)
        ensures
            r == explicit_choice(self.strict, self.no_strict),
    {
        match (self.strict, self.no_strict) {
            (true, false) => Some(ExplicitChoice::Strict),
            (false, true) => Some(ExplicitChoice::Default),
            (false, false) => None,
            (true, true) => None,
        }
    }

    /// Rejects `-u` together with `--tz`, carrying the zone name.
    pub fn validate(&self) -> (r: Result<(), Error>)
        ensures
            r is Ok <==> !(self.utc && self.tz is Some),
            r matches Err(e) ==> e matches Error::InvalidUtcWithNamedTz { tz } && tz@ == self.tz->0@,
    {
        if self.utc {
            if let Some(tz) = &self.tz {
                return Err(Error::InvalidUtcWithNamedTz { tz: tz.clone() });
            }
        }
        Ok(())
    }
}

/// One argument of the command line: its identifier, short flag and long
/// flag (a positional has neither).
#[derive(Debug, Clone, Copy)]
pub struct ArgInfo {
    pub id: &'static str,
    pub short: Option<char>,
    pub long: Option<&'static str>,
}

/// The arguments of the command line, in declaration order.
pub open spec fn cli_argument_table() -> Seq<ArgInfo> {
    seq![
        ArgInfo { id: "incremental", short: Some('i'), long: Some("incremental") },
        ArgInfo { id: "since_start", short: Some('s'), long: Some("since-start") },
        ArgInfo { id: "monotonic", short: Some('m'), long: Some("monotonic") },
        ArgInfo { id: "relative", short: Some('r'), long: Some("relative") },
        ArgInfo { id: "utc", short: Some('u'), long: Some("utc") },
        ArgInfo { id: "tz", short: None, long: Some("tz") },
        ArgInfo { id: "strict", short: None, long: Some("strict") },
        ArgInfo { id: "no_strict", short: None, long: Some("no-strict") },
        ArgInfo { id: "format", short: None, long: None },
    ]
}

/// The arguments of the command line, in declaration order.
pub fn arguments() -> (r: Vec<ArgInfo>)
    ensures
        r@ == cli_argument_table(),
{
    let r = vec![
        ArgInfo { id: "incremental", short: Some('i'), long: Some("incremental") },
        ArgInfo { id: "since_start", short: Some('s'), long: Some("since-start") },
        ArgInfo { id: "monotonic", short: Some('m'), long: Some("monotonic") },
        ArgInfo { id: "relative", short: Some('r'), long: Some("relative") },
        ArgInfo { id: "utc", short: Some('u'), long: Some("utc") },
        ArgInfo { id: "tz", short: None, long: Some("tz") },
        ArgInfo { id: "strict", short: None, long: Some("strict") },
        ArgInfo { id: "no_strict", short: None, long: Some("no-strict") },
        ArgInfo { id: "format", short: None, long: None },
    ];
    assert(r@ =~= cli_argument_table());
    r
}

/// The clock an invocation reads.
#[derive(Debug, Clone, Copy, PartialEq, Eq, Structural)]
pub enum ClockChoice {
    /// The system wall clock.
    Wall,
    /// A clock anchored at the start that moves on with the monotonic clock
    /// (`-m` with `-i` or `-s`).
    Monotonic,
    /// A clock pinned at one instant (`RUSTY_TS_TEST_FIXED_CLOCK`).
    Fixed(Timestamp),
}

/// What an invocation runs.
#[derive(Debug)]
pub enum RunPlan {
    /// Write a completion script for the shell.
    Completions(clap_complete::Shell),
    /// Rewrite recognised timestamps in relative form, with the patterns of
    /// the mode, measured from the chosen clock's reading at the start.
    Relative(CompatibilityMode, ClockChoice),
    /// Prefix each line with a timestamp read from the chosen clock.
    Prefix { format: String, tz: TimezoneSource, source: PrefixSource, clock: ClockChoice },
}

/// A refused invocation: the whole text for standard error (final newline
/// included) and the exit code.
#[derive(Debug)]
pub struct Refusal {
    pub message: String,
    pub exit_code: u8,
}

/// The usage line moreutils `ts` prints after refusing an option.
pub const STRICT_USAGE: &'static str = "usage: ts [-r] [format]\n";

/// The line moreutils `ts` prints for an option it does not know.
pub open spec fn unknown_option_line(name: Seq<char>) -> Seq<char> {
    "Unknown option: "@ + name + seq!['\n']
}

/// The name of a long option: its text up to the first `=`.
pub open spec fn long_option_name(body: Seq<char>) -> Seq<char>
    decreases body.len(),
{
    if body.len() == 0 || body[0] == '=' {
        Seq::empty()
    } else {
        seq![body[0]] + long_option_name(body.drop_first())
    }
}

/// One line for each `u` in a cluster of short options.
pub open spec fn short_refusals(cluster: Seq<char>) -> Seq<char>
    decreases cluster.len(),
{
    if cluster.len() == 0 {
        Seq::empty()
    } else {
        (if cluster[0] == 'u' {
            unknown_option_line(seq!['u'])
        } else {
            Seq::empty()
        }) + short_refusals(cluster.drop_first())
    }
}

/// The lines for one argument: `--utc` and `--tz` (with or without a
/// value) by their long names, each `-u` in a cluster of short options, and
/// the `completions` subcommand by its name.
pub open spec fn argument_refusals(arg: Seq<char>) -> Seq<char> {
    if arg.len() > 2 && arg[0] == '-' && arg[1] == '-' {
        let name = long_option_name(arg.skip(2));
        if name == "utc"@ || name == "tz"@ {
            unknown_option_line(name)
        } else {
            Seq::empty()
        }
    } else if arg.len() >= 2 && arg[0] == '-' {
        short_refusals(arg.skip(1))
    } else if arg == "completions"@ {
        unknown_option_line(arg)
    } else {
        Seq::empty()
    }
}

/// The lines for the arguments in order, up to a `--` that ends the
/// options.
pub open spec fn refusal_lines(args: Seq<Seq<char>>) -> Seq<char>
    decreases args.len(),
{
    if args.len() == 0 || args[0] == "--"@ {
        Seq::empty()
    } else {
        argument_refusals(args[0]) + refusal_lines(args.drop_first())
    }
}

/// What moreutils `ts` prints when it refuses the extension options among
/// `args` (the arguments after the program name): an `Unknown option:`
/// line for each, then its usage line.
pub open spec fn strict_refusal_text(args: Seq<Seq<char>>) -> Seq<char> {
    refusal_lines(args) + STRICT_USAGE@
}

/// The instant `RUSTY_TS_TEST_FIXED_CLOCK` pins, where it holds an RFC 3339
/// date-time.
pub open spec fn fixed_clock_instant(text: Seq<char>) -> Option<(i64, u32)> {
    token_instant(text, ParserKind::Rfc3339)
}

/// The clock an invocation reads: the pinned instant where
/// `RUSTY_TS_TEST_FIXED_CLOCK` holds one; else the monotonic clock where
/// `-m` comes with `-i` or `-s`; else the wall clock.
pub open spec fn clock_chosen(cli: Cli, env_fixed_clock: Option<Seq<char>>, c: ClockChoice) -> bool {
    if env_fixed_clock is Some && fixed_clock_instant(env_fixed_clock->0) is Some {
        c matches ClockChoice::Fixed(t) && Some(t@) == fixed_clock_instant(env_fixed_clock->0)
    } else if cli.monotonic && (cli.incremental || cli.since_start) {
        c is Monotonic
    } else {
        c is Wall
    }
}

/// The format an invocation uses: the positional one; else, in Default
/// mode, a non-empty `RUSTY_TS_FORMAT`; else the moreutils default.
pub open spec fn chosen_format(cli: Cli, compat: CompatibilityMode, env_format: Option<Seq<char>>) -> Seq<
    char,
> {
    match cli.format {
        Some(f) => f@,
        None => if compat == CompatibilityMode::Default && env_format is Some && env_format->0.len() > 0 {
            env_format->0
        } else {
            DEFAULT_FORMAT@
        },
    }
}

/// The prefix source the elapsed-time flags choose.
pub open spec fn chosen_source(cli: Cli) -> PrefixSource {
    if cli.incremental {
        PrefixSource::SincePreviousLine
    } else if cli.since_start {
        PrefixSource::SinceProgramStart
    } else {
        PrefixSource::Absolute
    }
}

/// `r` refuses with the given text and exit code.
pub open spec fn refused(r: Result<RunPlan, Refusal>, message: Seq<char>, code: u8) -> bool {
    r matches Err(f) && f.message@ == message && f.exit_code == code
}

/// The plan of an invocation with arguments `args`, decided in this order:
/// in Strict mode `-u`, `--tz` and subcommands are refused as moreutils `ts`
/// refuses unknown options (exit 2); `-u` with `--tz` is refused (exit 2);
/// a subcommand runs; an unknown `--tz` zone is refused (exit 2); otherwise
/// relative mode or prefixing runs, with the chosen format, zone, prefix
/// source and clock.
pub open spec fn planned(
    cli: Cli,
    args: Seq<Seq<char>>,
    compat: CompatibilityMode,
    env_format: Option<Seq<char>>,
    env_fixed_clock: Option<Seq<char>>,
    r: Result<RunPlan, Refusal>,
) -> bool {
    if compat == CompatibilityMode::Strict && (cli.utc || cli.tz is Some || cli.subcommand is Some) {
        refused(r, strict_refusal_text(args), 2)
    } else if cli.utc && cli.tz is Some {
        refused(
            r,
            "rusty-ts: "@ + error_message(
                Error::InvalidUtcWithNamedTz { tz: cli.tz->0 },
                Seq::empty(),
            ) + seq!['\n'],
            2,
        )
    } else if cli.subcommand is Some {
        r matches Ok(RunPlan::Completions(s)) && cli.subcommand == Some(CliCommand::Completions { shell: s })
    } else if !cli.utc && cli.tz is Some && !iana_zone_known(cli.tz->0@) {
        refused(
            r,
            "rusty-ts: "@ + error_message(Error::InvalidIanaName(cli.tz->0), Seq::empty()) + seq!['\n'],
            2,
        )
    } else if cli.relative {
        r matches Ok(RunPlan::Relative(m, c)) && m == compat && clock_chosen(cli, env_fixed_clock, c)
    } else {
        r matches Ok(RunPlan::Prefix { format, tz, source, clock }) && format@ == chosen_format(
            cli,
            compat,
            env_format,
        ) && source == chosen_source(cli) && clock_chosen(cli, env_fixed_clock, clock) && if cli.utc {
            tz is Utc
        } else {
            match cli.tz {
                Some(n) => tz matches TimezoneSource::Named(z) && z@ == n@,
                None => tz is Local,
            }
        }
    }
}

/// `rusty-ts: `, the error's message and a newline, with exit code 2.
fn refusal_of(e: Error) -> (r: Refusal)
    requires
        !(e is Io),
    ensures
        r.message@ == "rusty-ts: "@ + error_message(e, Seq::empty()) + seq!['\n'],
        r.exit_code == 2,
{
    let mut message = "rusty-ts: ".to_owned();
    let text = e.message();
    message.append(text.as_str());
    push_char(&mut message, '\n');
    Refusal { message, exit_code: 2 }
}

/// Appends the `Unknown option:` line for `name`.
fn push_unknown_option(out: &mut String, name: &str)
    ensures
        final(out)@ == old(out)@ + unknown_option_line(name@),
{
    out.append("Unknown option: ");
    out.append(name);
    push_char(out, '\n');
}

/// The name of the long option `chars[2..]` (see [`long_option_name`]).
fn long_option_name_of(chars: &Vec<char>) -> (r: String)
    requires
        chars.len() >= 2,
    ensures
        r@ == long_option_name(chars@.skip(2)),
{
    let n = chars.len();
    let mut i: usize = 2;
    while i < n && chars[i] != '='
        invariant
            2 <= i <= n,
            n == chars.len(),
            long_option_name(chars@.skip(2)) == chars@.subrange(2, i as int) + long_option_name(
                chars@.skip(i as int),
            ),
        decreases n - i,
    {
        assert(chars@.skip(i as int).drop_first() =~= chars@.skip(i + 1));
        assert(chars@.subrange(2, i + 1) =~= chars@.subrange(2, i as int) + seq![chars@[i as int]]);
        i = i + 1;
    }
    string_of(chars, 2, i)
}

proof fn lemma_short_refusals_concat(a: Seq<char>, b: Seq<char>)
    ensures
        short_refusals(a + b) == short_refusals(a) + short_refusals(b),
    decreases a.len(),
{
    if a.len() == 0 {
        assert(a + b =~= b);
    } else {
        assert((a + b).drop_first() =~= a.drop_first() + b);
        lemma_short_refusals_concat(a.drop_first(), b);
        assert((a + b)[0] == a[0]);
    }
}

/// Appends the lines for one argument (see [`argument_refusals`]).
fn push_argument_refusals(out: &mut String, arg: &str)
    ensures
        final(out)@ == old(out)@ + argument_refusals(arg@),
{
    let c = chars_of(arg);
    let n = c.len();
    if n > 2 && c[0] == '-' && c[1] == '-' {
        let name = long_option_name_of(&c);
        if same_text(name.as_str(), "utc") || same_text(name.as_str(), "tz") {
            push_unknown_option(out, name.as_str());
        }
    } else if n >= 2 && c[0] == '-' {
        let mut i: usize = 1;
        while i < n
            invariant
                1 <= i <= n,
                n == c.len(),
                c@ == arg@,
                out@ == old(out)@ + short_refusals(c@.subrange(1, i as int)),
            decreases n - i,
        {
            proof {
                assert(c@.subrange(1, i + 1) =~= c@.subrange(1, i as int) + seq![c@[i as int]]);
                lemma_short_refusals_concat(c@.subrange(1, i as int), seq![c@[i as int]]);
                assert(seq![c@[i as int]].drop_first() =~= Seq::<char>::empty());
                assert(short_refusals(Seq::<char>::empty()) == Seq::<char>::empty());
                reveal_strlit("u");
                assert("u"@ =~= seq!['u']);
            }
            let ghost before = out@;
            if c[i] == 'u' {
                push_unknown_option(out, "u");
                assert(out@ =~= before + (unknown_option_line(seq!['u']) + Seq::<char>::empty()));
            } else {
                assert(out@ =~= before + (Seq::<char>::empty() + Seq::<char>::empty()));
            }
            i = i + 1;
        }
        assert(c@.subrange(1, n as int) =~= arg@.skip(1));
    } else if same_text(arg, "completions") {
        push_unknown_option(out, arg);
    }
}
/// The text moreutils `ts` prints when it refuses the extension options
/// among `args`, the arguments after the program name (see
/// [`strict_refusal_text`]).
pub fn strict_refusal(args: &Vec<String>) -> (r: String)
    ensures
        r@ == strict_refusal_text(texts(args@)),
{
    let ghost all = texts(args@);
    let mut out = String::new();
    let mut i: usize = 0;
    assert(all.skip(0) =~= all);
    while i < args.len() && !same_text(args[i].as_str(), "--")
        invariant
            i <= args.len(),
            all == texts(args@),
            refusal_lines(all) == out@ + refusal_lines(all.skip(i as int)),
        decreases args.len() - i,
    {
        proof {
            assert(all.skip(i as int)[0] == args@[i as int]@);
            assert(all.skip(i as int).drop_first() =~= all.skip(i + 1));
        }
        push_argument_refusals(&mut out, args[i].as_str());
        i = i + 1;
    }
    proof {
        if i < args.len() {
            assert(all.skip(i as int)[0] == args@[i as int]@);
        } else {
            assert(all.skip(i as int) =~= Seq::<Seq<char>>::empty());
        }
    }
    out.append(STRICT_USAGE);
    out
}

/// The view of an optional text.
pub open spec fn opt_text(t: Option<&str>) -> Option<Seq<char>> {
    match t {
        Some(x) => Some(x@),
        None => None,
    }
}

/// The clock an invocation reads (see [`clock_chosen`]).
fn choose_clock(cli: &Cli, env_fixed_clock: Option<&str>) -> (r: ClockChoice)
    ensures
        clock_chosen(*cli, opt_text(env_fixed_clock), r),
{
    if let Some(text) = env_fixed_clock {
        if let Some(t) = parse_token(text, ParserKind::Rfc3339) {
            return ClockChoice::Fixed(t);
        }
    }
    if cli.monotonic && (cli.incremental || cli.since_start) {
        ClockChoice::Monotonic
    } else {
        ClockChoice::Wall
    }
}

/// Decides what an invocation runs (see [`planned`]), given its arguments
/// after the program name, its resolved compatibility mode, and the values
/// of `RUSTY_TS_FORMAT` and `RUSTY_TS_TEST_FIXED_CLOCK`.
pub fn plan_run(
    cli: Cli,
    args: &Vec<String>,
    compat: CompatibilityMode,
    env_format: Option<&str>,
    env_fixed_clock: Option<&str>,
) -> (r: Result<RunPlan, Refusal>)
    ensures
        planned(cli, texts(args@), compat, opt_text(env_format), opt_text(env_fixed_clock), r),
{
    if compat == CompatibilityMode::Strict && (cli.utc || cli.tz.is_some()
        || cli.subcommand.is_some()) {
        return Err(Refusal { message: strict_refusal(args), exit_code: 2 });
    }
    if let Err(e) = cli.validate() {
        return Err(refusal_of(e));
    }
    let clock = choose_clock(&cli, env_fixed_clock);
    let Cli { incremental, since_start, monotonic: _, relative, utc, tz, strict: _, no_strict: _, format, subcommand } =
        cli;
    if let Some(CliCommand::Completions { shell }) = subcommand {
        return Ok(RunPlan::Completions(shell));
    }
    let zone = if utc {
        TimezoneSource::Utc
    } else {
        match tz {
            Some(name) => match TimezoneSource::named(name.as_str()) {
                Ok(t) => t,
                Err(e) => {
                    return Err(refusal_of(e));
                },
            },
            None => TimezoneSource::Local,
        }
    };
    let spec = match format {
        Some(f) => f,
        None => {
            let from_env = match env_format {
                Some(e) => compat == CompatibilityMode::Default && !e.is_empty(),
                None => false,
            };
            if from_env {
                env_format.unwrap().to_owned()
            } else {
                DEFAULT_FORMAT.to_owned()
            }
        },
    };
    if relative {
        return Ok(RunPlan::Relative(compat, clock));
    }
    let source = if incremental {
        PrefixSource::SincePreviousLine
    } else if since_start {
        PrefixSource::SinceProgramStart
    } else {
        PrefixSource::Absolute
    };
    Ok(RunPlan::Prefix { format: spec, tz: zone, source, clock })
}

/// How a run that was not refused ended.
#[derive(Debug, Clone, Copy, PartialEq, Eq, Structural)]
pub enum RunEnd {
    /// The input ended and everything was written.
    Finished,
    /// The reader of the output went away (a broken pipe).
    OutputClosed,
    /// Reading, writing or rendering failed otherwise.
    Failed,
}

/// The exit code of a run that was not refused: a closed output counts as
/// a clean end (0), as the end of the input does; any other failure is 1.
pub fn exit_code(end: RunEnd) -> (r: u8)
    ensures
        r == (if end == RunEnd::Failed {
            1u8
        } else {
            0u8
        }),
{
    match end {
        RunEnd::Failed => 1,
        _ => 0,
    }
}

/// Strict mode refuses `-u`, `--tz` and subcommands with exit code 2,
/// before anything else is looked at, with the moreutils diagnostic.
pub proof fn law_strict_refuses_extensions(
    cli: Cli,
    args: Seq<Seq<char>>,
    env_format: Option<Seq<char>>,
    env_fixed_clock: Option<Seq<char>>,
    r: Result<RunPlan, Refusal>,
)
    requires
        cli.utc || cli.tz is Some || cli.subcommand is Some,
        planned(cli, args, CompatibilityMode::Strict, env_format, env_fixed_clock, r),
    ensures
        refused(r, strict_refusal_text(args), 2),
{
}

/// The zone timestamps are rendered in follows the flags: with neither `-u`
/// nor `--tz` an invocation that is not refused, runs no subcommand and does
/// not rewrite (`-r`) prefixes in the machine's local time; with `-u` in
/// UTC; with `--tz=<name>` alone in that named zone.
pub proof fn law_zone_follows_flags(
    cli: Cli,
    args: Seq<Seq<char>>,
    compat: CompatibilityMode,
    env_format: Option<Seq<char>>,
    env_fixed_clock: Option<Seq<char>>,
    r: Result<RunPlan, Refusal>,
)
    requires
        planned(cli, args, compat, env_format, env_fixed_clock, r),
    ensures
        !cli.utc && cli.tz is None && cli.subcommand is None && !cli.relative ==> (r matches Ok(
            RunPlan::Prefix { tz, .. },
        ) && tz is Local),
        r matches Ok(RunPlan::Prefix { tz, .. }) ==> ((cli.utc ==> tz is Utc) && (!cli.utc && cli.tz is None
            ==> tz is Local) && (!cli.utc && cli.tz is Some ==> (tz matches TimezoneSource::Named(z) && z@
            == cli.tz->0@))),
{
}

/// A positional format wins over `RUSTY_TS_FORMAT`, which Strict mode
/// ignores; an empty `RUSTY_TS_FORMAT` counts as unset.
pub proof fn law_format_precedence(cli: Cli, compat: CompatibilityMode, env_format: Option<Seq<char>>)
    ensures
        cli.format matches Some(f) ==> chosen_format(cli, compat, env_format) == f@,
        cli.format is None && compat == CompatibilityMode::Strict ==> chosen_format(
            cli,
            compat,
            env_format,
        ) == DEFAULT_FORMAT@,
        cli.format is None && env_format == Some(Seq::<char>::empty()) ==> chosen_format(
            cli,
            compat,
            env_format,
        ) == DEFAULT_FORMAT@,
{
}

} // verus!
