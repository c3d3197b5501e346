//! Prefix each line of a text stream with a timestamp, in the manner of the
//! moreutils `ts` tool: strftime formats with the `%.S` / `%.s` fractional
//! extensions, elapsed-time prefixes, relative rewriting of recognised
//! timestamps, and the compatibility-mode rules of the command line.

pub mod cli;
pub mod compat_matrix;
pub mod error;
pub mod lines;
pub mod matcher;
pub mod mode;
pub mod pipeline;
pub mod relative;
pub mod stamp;
pub mod text;
pub mod time;

pub use error::Error;
pub use mode::{CompatibilityMode, ExplicitChoice};
pub use stamp::ElapsedAnchor;
pub use time::tz::TimezoneSource;

use vstd::prelude::*;
use crate::stamp::{prefixes, LineStamper};
use crate::text::push_char;
use crate::lines::{lines_of, split_lines};
use crate::time::clock::{Clock, Wall};
use crate::time::format::DEFAULT_FORMAT;
use crate::time::instant::{valid_instant, Timestamp};
use crate::time::tz::{rendered_as, rule_of, ZoneRule};

verus! {

/// Strftime format selector.
#[non_exhaustive]
#[derive(Debug)]
pub enum Format {
    /// The moreutils default format (`%b %d %H:%M:%S`).
    Default,
    /// The given strftime format, with the `%.S` / `%.s` extensions.
    Strftime(String),
}

impl Default for Format {
    fn default() -> (r: Self)
        ensures
            r is Default,
    {
        Format::Default
    }
}

impl Clone for Format {
    fn clone(&self) -> (r: Self)
        ensures
            format_spec_text(r) == format_spec_text(*self),
    {
        match self {
            Format::Default => Format::Default,
            Format::Strftime(s) => Format::Strftime(s.clone()),
        }
    }
}

/// The format string a selector stands for.
pub open spec fn format_spec_text(f: Format) -> Seq<char> {
    match f {
        Format::Default => DEFAULT_FORMAT@,
        Format::Strftime(s) => s@,
    }
}

/// Builder for [`Timestamper`].
#[derive(Debug)]
pub struct TimestamperBuilder {
    format: Format,
    /// Mirrors the command line's `-u` / `--utc`.
    utc_requested: bool,
    /// Mirrors the command line's `--tz=<IANA>`.
    named_tz: Option<String>,
    /// Direct choice of the timezone source; when set it supersedes
    /// `utc_requested` and `named_tz`.
    timezone_override: Option<TimezoneSource>,
    compat: CompatibilityMode,
    elapsed: ElapsedAnchor,
}

/// The result of finishing a builder configured as given: a direct timezone
/// choice wins and bypasses the checks below; otherwise both UTC and a named
/// zone is an error carrying the name; otherwise UTC, else the named zone
/// (an unknown name is an error carrying it), else local time.
pub open spec fn built(
    format: Format,
    utc: bool,
    named: Option<String>,
    direct: Option<TimezoneSource>,
    compat: CompatibilityMode,
    elapsed: ElapsedAnchor,
    r: Result<Timestamper, Error>,
) -> bool {
    if direct is None && utc && named is Some {
        r matches Err(Error::InvalidUtcWithNamedTz { tz }) && tz@ == named->0@
    } else if direct is None && !utc && named is Some && !crate::time::render::iana_zone_known(
        named->0@,
    ) {
        r matches Err(Error::InvalidIanaName(n)) && n@ == named->0@
    } else {
        r matches Ok(ts) && format_spec_text(ts.format_of()) == format_spec_text(format)
            && ts.compat_of() == compat && ts.elapsed_of() == elapsed && match direct {
            Some(d) => ts.zone_of() == d,
            None => if utc {
                ts.zone_of() is Utc
            } else {
                match named {
                    Some(n) => ts.zone_of() matches TimezoneSource::Named(z) && z@ == n@,
                    None => ts.zone_of() is Local,
                }
            },
        }
    }
}

/// The settings of a builder: format, UTC requested, named zone, direct
/// timezone choice, compatibility mode, elapsed-time anchor.
pub struct BuilderSettings {
    pub format: Format,
    pub utc: bool,
    pub named: Option<String>,
    pub direct: Option<TimezoneSource>,
    pub compat: CompatibilityMode,
    pub elapsed: ElapsedAnchor,
}

impl TimestamperBuilder {
    /// The builder's settings.
    pub closed spec fn settings(self) -> BuilderSettings {
        BuilderSettings {
            format: self.format,
            utc: self.utc_requested,
            named: self.named_tz,
            direct: self.timezone_override,
            compat: self.compat,
            elapsed: self.elapsed,
        }
    }

    /// A builder with every setting at its default: default format, local
    /// time, Default mode, absolute timestamps.
    pub fn new() -> (r: Self)
        ensures
            r.settings().format is Default,
            !r.settings().utc,
            r.settings().named is None,
            r.settings().direct is None,
            r.settings().compat == CompatibilityMode::Default,
            r.settings().elapsed == ElapsedAnchor::Absolute,
    {
        TimestamperBuilder {
            format: Format::Default,
            utc_requested: false,
            named_tz: None,
            timezone_override: None,
            compat: CompatibilityMode::Default,
            elapsed: ElapsedAnchor::Absolute,
        }
    }

    /// Sets the format selector.
    pub fn format(self, format: Format) -> (r: Self)
        ensures
            r.settings() == (BuilderSettings { format, ..self.settings() }),
    {
        TimestamperBuilder { format, ..self }
    }

    /// Requests UTC rendering (the command line's `-u`); together with a
    /// named zone, and no direct timezone choice, it makes
    /// [`build`](Self::build) fail.
    pub fn utc(self, utc: bool) -> (r: Self)
        ensures
            r.settings() == (BuilderSettings { utc, ..self.settings() }),
    {
        TimestamperBuilder { utc_requested: utc, ..self }
    }

    /// Requests rendering in the named IANA zone (the command line's
    /// `--tz`); the name is resolved by [`build`](Self::build).
    pub fn tz_name(self, name: &str) -> (r: Self)
        ensures
            r.settings().named matches Some(n) && n@ == name@,
            r.settings().format == self.settings().format,
            r.settings().utc == self.settings().utc,
            r.settings().direct == self.settings().direct,
            r.settings().compat == self.settings().compat,
            r.settings().elapsed == self.settings().elapsed,
    {
        TimestamperBuilder { named_tz: Some(name.to_owned()), ..self }
    }

    /// Chooses the timezone source directly; this supersedes `utc` and
    /// `tz_name` and bypasses their checks.
    pub fn timezone(self, tz: TimezoneSource) -> (r: Self)
        ensures
            r.settings() == (BuilderSettings { direct: Some(tz), ..self.settings() }),
    {
        TimestamperBuilder { timezone_override: Some(tz), ..self }
    }

    /// Sets the compatibility mode.
    pub fn compat(self, mode: CompatibilityMode) -> (r: Self)
        ensures
            r.settings() == (BuilderSettings { compat: mode, ..self.settings() }),
    {
        TimestamperBuilder { compat: mode, ..self }
    }

    /// Sets which instant the prefixes show.
    pub fn elapsed(self, anchor: ElapsedAnchor) -> (r: Self)
        ensures
            r.settings() == (BuilderSettings { elapsed: anchor, ..self.settings() }),
    {
        TimestamperBuilder { elapsed: anchor, ..self }
    }

    /// Finishes the builder (see [`built`]).
    pub fn build(self) -> (r: Result<Timestamper, Error>)
        ensures
            built(
                self.settings().format,
                self.settings().utc,
                self.settings().named,
                self.settings().direct,
                self.settings().compat,
                self.settings().elapsed,
                r,
            ),
    {
        let TimestamperBuilder { format, utc_requested, named_tz, timezone_override, compat, elapsed } =
            self;
        let timezone = match timezone_override {
            Some(direct) => direct,
            None => {
                if utc_requested {
                    if let Some(name) = &named_tz {
                        return Err(Error::InvalidUtcWithNamedTz { tz: name.clone() });
                    }
                }
                if utc_requested {
                    TimezoneSource::Utc
                } else {
                    match named_tz {
                        Some(name) => match TimezoneSource::named(name.as_str()) {
                            Ok(tz) => tz,
                            Err(e) => {
                                return Err(e);
                            },
                        },
                        None => TimezoneSource::Local,
                    }
                }
            },
        };
        Ok(Timestamper { format, timezone, compat, elapsed })
    }
}

impl Default for TimestamperBuilder {
    fn default() -> (r: Self)
        ensures
            r.settings().format is Default,
            !r.settings().utc,
            r.settings().named is None,
            r.settings().direct is None,
            r.settings().compat == CompatibilityMode::Default,
            r.settings().elapsed == ElapsedAnchor::Absolute,
    {
        TimestamperBuilder::new()
    }
}

/// A configured line-timestamping engine.
#[non_exhaustive]
#[derive(Debug)]
pub struct Timestamper {
    format: Format,
    timezone: TimezoneSource,
    compat: CompatibilityMode,
    elapsed: ElapsedAnchor,
}

/// The UTF-8 bytes of a prefixed line: the prefix, `separator` spaces and
/// the payload bytes as they came.
pub open spec fn stamped_bytes(prefix: Seq<char>, separator: nat, payload: Seq<u8>) -> Seq<u8> {
    vstd::utf8::encode_utf8(prefix) + Seq::new(separator, |i: int| 32u8) + payload
}

/// `r` holds, for each payload, its prefix (from `outcome`), `separator`
/// spaces and the payload; or, where a prefix cannot be rendered, the error
/// naming the format `spec`.
pub open spec fn stamped_outcome(
    r: Result<Vec<Vec<u8>>, Error>,
    outcome: Option<(Seq<Seq<char>>, (Option<(i64, u32)>, Option<(i64, u32)>))>,
    payloads: Seq<Seq<u8>>,
    separator: nat,
    spec: Seq<char>,
) -> bool {
    match outcome {
        Some((ps, _)) => r matches Ok(v) && v@.len() == payloads.len() && forall|i: int|
            0 <= i < payloads.len() ==> (#[trigger] v@[i])@ == stamped_bytes(ps[i], separator, payloads[i]),
        None => r matches Err(Error::InvalidFormat(f)) && f@ == spec,
    }
}

/// `r` holds, for each line, its prefix (from `outcome`), two spaces and the
/// line; or, where a prefix cannot be rendered, the error naming the format
/// `spec`.
pub open spec fn stamped_strings(
    r: Result<Vec<String>, Error>,
    outcome: Option<(Seq<Seq<char>>, (Option<(i64, u32)>, Option<(i64, u32)>))>,
    lines: Seq<Seq<char>>,
    spec: Seq<char>,
) -> bool {
    match outcome {
        Some((ps, _)) => r matches Ok(v) && v@.len() == lines.len() && forall|i: int|
            0 <= i < lines.len() ==> (#[trigger] v@[i])@ == ps[i] + seq![' ', ' '] + lines[i],
        None => r matches Err(Error::InvalidFormat(f)) && f@ == spec,
    }
}

/// Every instant is a UTC instant and every rule shows `tz`, one of each per
/// line.
pub open spec fn readings_for(tz: TimezoneSource, rules: Seq<ZoneRule>, nows: Seq<(i64, u32)>, n: nat) -> bool {
    &&& rules.len() == n
    &&& nows.len() == n
    &&& forall|i: int| 0 <= i < n ==> #[trigger] rule_of(tz, rules[i])
    &&& forall|i: int| 0 <= i < n ==> valid_instant((#[trigger] nows[i]).0 as int, nows[i].1 as int)
}

/// `r` is the prefix `prefix`, two spaces and `line`; or, where there is no
/// prefix, the error naming the format `spec`.
pub open spec fn line_outcome(
    r: Result<Vec<u8>, Error>,
    prefix: Option<Seq<char>>,
    line: Seq<u8>,
    spec: Seq<char>,
) -> bool {
    match prefix {
        Some(p) => r matches Ok(v) && v@ == stamped_bytes(p, 2, line),
        None => r matches Err(Error::InvalidFormat(f)) && f@ == spec,
    }
}

/// Appends `bytes` to `out`.
pub(crate) fn push_bytes(out: &mut Vec<u8>, bytes: &[u8])
    ensures
        final(out)@ == old(out)@ + bytes@,
{
    let mut i: usize = 0;
    while i < bytes.len()
        invariant
            i <= bytes.len(),
            out@ == old(out)@ + bytes@.take(i as int),
        decreases bytes.len() - i,
    {
        out.push(bytes[i]);
        i = i + 1;
        assert(out@ =~= old(out)@ + bytes@.take(i as int));
    }
    assert(bytes@.take(i as int) =~= bytes@);
}

impl Timestamper {
    /// The configured format selector.
    pub closed spec fn format_of(self) -> Format {
        self.format
    }

    /// The configured timezone source.
    pub closed spec fn zone_of(self) -> TimezoneSource {
        self.timezone
    }

    /// The configured compatibility mode.
    pub closed spec fn compat_of(self) -> CompatibilityMode {
        self.compat
    }

    /// The configured elapsed-time anchor.
    pub closed spec fn elapsed_of(self) -> ElapsedAnchor {
        self.elapsed
    }

    /// The effective strftime format: the configured one or the moreutils
    /// default.
    pub fn format_spec(&self) -> (r: &str)
        ensures
            r@ == format_spec_text(self.format_of()),
    {
        match &self.format {
            Format::Default => DEFAULT_FORMAT,
            Format::Strftime(s) => s.as_str(),
        }
    }

    /// The configured compatibility mode.
    pub fn compat(&self) -> (r: CompatibilityMode)
        ensures
            r == self.compat_of(),
    {
        self.compat
    }

    /// The configured timezone source.
    pub fn timezone(&self) -> (r: &TimezoneSource)
        ensures
            *r == self.zone_of(),
    {
        &self.timezone
    }

    /// The configured elapsed-time anchor.
    pub fn elapsed_anchor(&self) -> (r: ElapsedAnchor)
        ensures
            r == self.elapsed_of(),
    {
        self.elapsed
    }

    /// A fresh per-line state for a byte stream: the first line sets the
    /// start instant.
    pub fn stamper(&self) -> (r: LineStamper)
        ensures
            r@ == (None::<(i64, u32)>, None::<(i64, u32)>),
    {
        LineStamper::new()
    }

    /// One line of a byte stream, read at `now`: its prefix, two spaces and
    /// the line's bytes as they came (a trailing newline included).
    pub fn prefix_line(&self, stamper: &mut LineStamper, now: Timestamp, line: &[u8]) -> (r:
        Result<Vec<u8>, Error>)
        ensures
            final(stamper)@ == crate::stamp::state_after(old(stamper)@, self.elapsed_of(), now@),
            exists|rule: ZoneRule|
                #[trigger] rule_of(self.zone_of(), rule) && line_outcome(
                    r,
                    crate::stamp::prefix_text(
                        format_spec_text(self.format_of()),
                        self.elapsed_of(),
                        rule,
                        old(stamper)@,
                        now@,
                    ),
                    line@,
                    format_spec_text(self.format_of()),
                ),
    {
        let spec = self.format_spec();
        let prefix = stamper.prefix(spec, &self.timezone, self.elapsed, now);
        match prefix {
            Ok(p) => {
                let mut out: Vec<u8> = Vec::new();
                push_bytes(&mut out, p.as_str().as_bytes());
                out.push(32u8);
                out.push(32u8);
                push_bytes(&mut out, line);
                assert(out@ =~= stamped_bytes(p@, 2, line@));
                Ok(out)
            },
            Err(e) => Err(e),
        }
    }
}

/// The payloads of byte lines.
pub open spec fn payloads(lines: Seq<Vec<u8>>) -> Seq<Seq<u8>> {
    lines.map_values(|l: Vec<u8>| l@)
}

/// The text of string lines.
pub open spec fn texts(lines: Seq<String>) -> Seq<Seq<char>> {
    lines.map_values(|l: String| l@)
}

proof fn lemma_readings_push(
    tz: TimezoneSource,
    rules: Seq<ZoneRule>,
    nows: Seq<(i64, u32)>,
    rule: ZoneRule,
    now: (i64, u32),
)
    requires
        readings_for(tz, rules, nows, rules.len()),
        rule_of(tz, rule),
        valid_instant(now.0 as int, now.1 as int),
    ensures
        readings_for(tz, rules.push(rule), nows.push(now), rules.len() + 1),
{
    assert forall|i: int| 0 <= i < rules.len() + 1 implies #[trigger] rule_of(tz, rules.push(rule)[i]) by {
        if i < rules.len() {
            assert(rules.push(rule)[i] == rules[i]);
        }
    }
    assert forall|i: int| 0 <= i < rules.len() + 1 implies valid_instant(
        (#[trigger] nows.push(now)[i]).0 as int,
        nows.push(now)[i].1 as int,
    ) by {
        if i < rules.len() {
            assert(nows.push(now)[i] == nows[i]);
        }
    }
}

proof fn lemma_readings_fill(
    tz: TimezoneSource,
    rules: Seq<ZoneRule>,
    nows: Seq<(i64, u32)>,
    rule: ZoneRule,
    now: (i64, u32),
    extra: nat,
)
    requires
        readings_for(tz, rules, nows, rules.len()),
        rule_of(tz, rule),
        valid_instant(now.0 as int, now.1 as int),
    ensures
        readings_for(
            tz,
            rules + Seq::new(extra, |k: int| rule),
            nows + Seq::new(extra, |k: int| now),
            rules.len() + extra,
        ),
{
    let full_rules = rules + Seq::new(extra, |k: int| rule);
    let full_nows = nows + Seq::new(extra, |k: int| now);
    assert forall|i: int| 0 <= i < rules.len() + extra implies #[trigger] rule_of(tz, full_rules[i]) by {
        if i < rules.len() {
            assert(full_rules[i] == rules[i]);
        }
    }
    assert forall|i: int| 0 <= i < rules.len() + extra implies valid_instant(
        (#[trigger] full_nows[i]).0 as int,
        full_nows[i].1 as int,
    ) by {
        if i < rules.len() {
            assert(full_nows[i] == nows[i]);
        }
    }
}

/// Prefixes each of `lines` through the format `spec` in the zone `tz`,
/// each line read at `clock` when its turn comes and the remembered instants
/// starting from `state`: each result is the line's prefix, `separator`
/// spaces and its bytes as they came. Where a prefix cannot be rendered, the
/// error names the format.
#[verifier::spinoff_prover]
#[verifier::rlimit(40)]
pub(crate) fn stamp_lines<C: Clock + ?Sized>(
    spec: &str,
    tz: &TimezoneSource,
    anchor: ElapsedAnchor,
    clock: &C,
    state: LineStamper,
    lines: &Vec<Vec<u8>>,
    separator: usize,
) -> (r: Result<Vec<Vec<u8>>, Error>)
    requires
        separator <= 2,
    ensures
        exists|rules: Seq<ZoneRule>, nows: Seq<(i64, u32)>|
            #[trigger] readings_for(*tz, rules, nows, lines@.len()) && (forall|i: int|
                0 <= i < nows.len() ==> #[trigger] clock.admits(nows[i])) && stamped_outcome(
                r,
                prefixes(spec@, anchor, rules, nows, state@),
                payloads(lines@),
                separator as nat,
                spec@,
            ),
{
    let ghost init = state@;
    let mut stamper = state;
    let mut out: Vec<Vec<u8>> = Vec::new();
    let ghost mut rules: Seq<ZoneRule> = Seq::empty();
    let ghost mut nows: Seq<(i64, u32)> = Seq::empty();
    let ghost mut ps: Seq<Seq<char>> = Seq::empty();
    let mut i: usize = 0;
    while i < lines.len()
        invariant
            i <= lines.len(),
            separator <= 2,
            init == state@,
            readings_for(*tz, rules, nows, i as nat),
            forall|k: int| 0 <= k < nows.len() ==> #[trigger] clock.admits(nows[k]),
            prefixes(spec@, anchor, rules, nows, init) == Some((ps, stamper@)),
            out@.len() == i,
            ps.len() == i,
            forall|j: int|
                0 <= j < i ==> (#[trigger] out@[j])@ == stamped_bytes(ps[j], separator as nat, lines@[j]@),
        decreases lines.len() - i,
    {
        let now = clock.now();
        let ghost state = stamper@;
        let result = stamper.prefix(spec, tz, anchor, now);
        let ghost rule = choose|rule: ZoneRule|
            #[trigger] rule_of(*tz, rule) && rendered_as(
                result,
                crate::stamp::prefix_text(spec@, anchor, rule, state, now@),
                spec@,
            );
        let ghost rules2 = rules.push(rule);
        let ghost nows2 = nows.push(now@);
        proof {
            crate::stamp::lemma_prefixes_step(spec@, anchor, rules, nows, init, rule, now@);
            lemma_readings_push(*tz, rules, nows, rule, now@);
            assert(clock.admits(now@));
            assert forall|k: int| 0 <= k < nows2.len() implies #[trigger] clock.admits(nows2[k]) by {
                if k < nows.len() {
                    assert(nows2[k] == nows[k]);
                } else {
                    assert(nows2[k] == now@);
                }
            }
        }
        match result {
            Ok(p) => {
                let mut chunk: Vec<u8> = Vec::new();
                push_bytes(&mut chunk, p.as_str().as_bytes());
                let mut k: usize = 0;
                while k < separator
                    invariant
                        k <= separator,
                        chunk@ == vstd::utf8::encode_utf8(p@) + Seq::new(k as nat, |m: int| 32u8),
                    decreases separator - k,
                {
                    chunk.push(32u8);
                    k = k + 1;
                    assert(chunk@ =~= vstd::utf8::encode_utf8(p@) + Seq::new(k as nat, |m: int| 32u8));
                }
                push_bytes(&mut chunk, lines[i].as_slice());
                assert(chunk@ =~= stamped_bytes(p@, separator as nat, lines@[i as int]@));
                let ghost old_ps = ps;
                let ghost old_out = out@;
                proof {
                    ps = ps.push(p@);
                    rules = rules2;
                    nows = nows2;
                }
                out.push(chunk);
                proof {
                    assert forall|j: int| 0 <= j < i + 1 implies (#[trigger] out@[j])@ == stamped_bytes(
                        ps[j],
                        separator as nat,
                        lines@[j]@,
                    ) by {
                        if j < i {
                            assert(out@[j] == old_out[j]);
                            assert(ps[j] == old_ps[j]);
                        }
                    }
                }
                i = i + 1;
            },
            Err(e) => {
                proof {
                    let rest = (lines@.len() - i - 1) as nat;
                    let full_rules = rules2 + Seq::new(rest, |k: int| rule);
                    let full_nows = nows2 + Seq::new(rest, |k: int| now@);
                    assert(full_rules.take(i + 1) =~= rules2);
                    assert(full_nows.take(i + 1) =~= nows2);
                    crate::stamp::lemma_prefixes_fail_onward(spec@, anchor, full_rules, full_nows, init, i + 1);
                    lemma_readings_fill(*tz, rules2, nows2, rule, now@, rest);
                    assert forall|k: int| 0 <= k < full_nows.len() implies #[trigger] clock.admits(
                        full_nows[k],
                    ) by {
                        if k < nows2.len() {
                            assert(full_nows[k] == nows2[k]);
                        } else {
                            assert(full_nows[k] == now@);
                        }
                    }
                }
                return Err(e);
            },
        }
    }
    proof {
        assert(readings_for(*tz, rules, nows, lines@.len()));
    }
    Ok(out)
}

impl Timestamper {
    /// Prefixes each line of a byte stream with a timestamp: each line is
    /// read at the wall clock when its turn comes, gets its prefix (the
    /// first line sets the start instant), two spaces and its bytes as they
    /// came. Where the format cannot be rendered, the error names it.
    pub fn prefix_lines(&self, lines: &Vec<Vec<u8>>) -> (r: Result<Vec<Vec<u8>>, Error>)
        ensures
            exists|rules: Seq<ZoneRule>, nows: Seq<(i64, u32)>|
                #[trigger] readings_for(self.zone_of(), rules, nows, lines@.len()) && stamped_outcome(
                    r,
                    prefixes(
                        format_spec_text(self.format_of()),
                        self.elapsed_of(),
                        rules,
                        nows,
                        (None, None),
                    ),
                    payloads(lines@),
                    2,
                    format_spec_text(self.format_of()),
                ),
    {
        stamp_lines(self.format_spec(), &self.timezone, self.elapsed, &Wall, self.stamper(), lines, 2)
    }

    /// Prefixes each line of the byte stream `input` (see
    /// [`lines_of`](crate::lines::lines_of): each ends at its newline, the
    /// last may lack one) as [`prefix_lines`](Self::prefix_lines) does.
    pub fn prefix_stream(&self, input: &[u8]) -> (r: Result<Vec<Vec<u8>>, Error>)
        ensures
            exists|rules: Seq<ZoneRule>, nows: Seq<(i64, u32)>|
                #[trigger] readings_for(self.zone_of(), rules, nows, lines_of(input@).len())
                    && stamped_outcome(
                    r,
                    prefixes(
                        format_spec_text(self.format_of()),
                        self.elapsed_of(),
                        rules,
                        nows,
                        (None, None),
                    ),
                    lines_of(input@),
                    2,
                    format_spec_text(self.format_of()),
                ),
    {
        let lines = split_lines(input);
        proof {
            assert(payloads(lines@) =~= lines_of(input@));
        }
        self.prefix_lines(&lines)
    }
}

impl Timestamper {
    /// Prefixes each of the given lines with a timestamp, as the
    /// byte-stream version does but with the start instant taken from the
    /// wall clock when this is called; each result is the prefix, two
    /// spaces and the line. Where the format cannot be rendered, the error
    /// names it.
    pub fn prefix_string_lines(&self, lines: &Vec<String>) -> (r: Result<Vec<String>, Error>)
        ensures
            exists|start: (i64, u32), rules: Seq<ZoneRule>, nows: Seq<(i64, u32)>|
                #![trigger readings_for(self.zone_of(), rules, nows, lines@.len()), valid_instant(start.0 as int, start.1 as int)]
                readings_for(self.zone_of(), rules, nows, lines@.len()) && valid_instant(
                    start.0 as int,
                    start.1 as int,
                ) && stamped_strings(
                    r,
                    prefixes(
                        format_spec_text(self.format_of()),
                        self.elapsed_of(),
                        rules,
                        nows,
                        (Some(start), Some(start)),
                    ),
                    texts(lines@),
                    format_spec_text(self.format_of()),
                ),
    {
        let spec_str = self.format_spec();
        let ghost spec = format_spec_text(self.format_of());
        let ghost anchor = self.elapsed_of();
        let ghost zone = self.zone_of();
        let start = Wall::current();
        let ghost init = (Some(start@), Some(start@));
        let mut stamper = LineStamper::started_at(start);
        let mut out: Vec<String> = Vec::new();
        let ghost mut rules: Seq<ZoneRule> = Seq::empty();
        let ghost mut nows: Seq<(i64, u32)> = Seq::empty();
        let ghost mut ps: Seq<Seq<char>> = Seq::empty();
        let mut i: usize = 0;
        while i < lines.len()
            invariant
                i <= lines.len(),
                readings_for(zone, rules, nows, i as nat),
                prefixes(spec, anchor, rules, nows, init) == Some((ps, stamper@)),
                out@.len() == i,
                ps.len() == i,
                forall|j: int| 0 <= j < i ==> (#[trigger] out@[j])@ == ps[j] + seq![' ', ' '] + lines@[j]@,
                spec == format_spec_text(self.format_of()),
                spec_str@ == spec,
                anchor == self.elapsed_of(),
                zone == self.zone_of(),
                valid_instant(start@.0 as int, start@.1 as int),
                init == (Some(start@), Some(start@)),
            decreases lines.len() - i,
        {
            let now = Wall::current();
            let ghost state = stamper@;
            let result = stamper.prefix(spec_str, &self.timezone, self.elapsed, now);
            let ghost rule = choose|rule: ZoneRule|
                #[trigger] rule_of(zone, rule) && rendered_as(
                    result,
                    crate::stamp::prefix_text(spec, anchor, rule, state, now@),
                    spec,
                );
            let ghost rules2 = rules.push(rule);
            let ghost nows2 = nows.push(now@);
            proof {
                crate::stamp::lemma_prefixes_step(spec, anchor, rules, nows, init, rule, now@);
                lemma_readings_push(zone, rules, nows, rule, now@);
            }
            match result {
                Ok(mut text) => {
                    let ghost p = text@;
                    let ghost old_ps = ps;
                    let ghost old_out = out@;
                    push_char(&mut text, ' ');
                    push_char(&mut text, ' ');
                    text.append(lines[i].as_str());
                    proof {
                        ps = ps.push(p);
                        rules = rules2;
                        nows = nows2;
                    }
                    out.push(text);
                    proof {
                        assert forall|j: int| 0 <= j < i + 1 implies (#[trigger] out@[j])@ == ps[j] + seq![
                            ' ',
                            ' ',
                        ] + lines@[j]@ by {
                            if j < i {
                                assert(out@[j] == old_out[j]);
                                assert(ps[j] == old_ps[j]);
                            } else {
                                assert(out@[j]@ =~= p + seq![' ', ' '] + lines@[j]@);
                            }
                        }
                    }
                    i = i + 1;
                },
                Err(e) => {
                    proof {
                        let rest = (lines@.len() - i - 1) as nat;
                        let full_rules = rules2 + Seq::new(rest, |k: int| rule);
                        let full_nows = nows2 + Seq::new(rest, |k: int| now@);
                        assert(full_rules.take(i + 1) =~= rules2);
                        assert(full_nows.take(i + 1) =~= nows2);
                        crate::stamp::lemma_prefixes_fail_onward(spec, anchor, full_rules, full_nows, init, i + 1);
                        lemma_readings_fill(zone, rules2, nows2, rule, now@, rest);
                    }
                    return Err(e);
                },
            }
        }
        proof {
            assert(readings_for(zone, rules, nows, lines@.len()));
        }
        Ok(out)
    }
}

/// Without a direct timezone choice, requesting UTC together with a named
/// zone is refused, carrying the name, whatever else is configured.
pub proof fn law_utc_with_named_zone_refused(
    format: Format,
    name: String,
    compat: CompatibilityMode,
    elapsed: ElapsedAnchor,
    r: Result<Timestamper, Error>,
)
    requires
        built(format, true, Some(name), None, compat, elapsed, r),
    ensures
        r matches Err(Error::InvalidUtcWithNamedTz { tz }) && tz@ == name@,
{
}

/// A direct timezone choice always succeeds and wins over `utc` and
/// `tz_name`, even where those two conflict or the name is unknown.
pub proof fn law_direct_zone_wins(
    format: Format,
    utc: bool,
    named: Option<String>,
    direct: TimezoneSource,
    compat: CompatibilityMode,
    elapsed: ElapsedAnchor,
    r: Result<Timestamper, Error>,
)
    requires
        built(format, utc, named, Some(direct), compat, elapsed, r),
    ensures
        r matches Ok(ts) && ts.zone_of() == direct,
{
}

/// A stamped line ends with the line's bytes exactly as they came, after
/// the prefix's UTF-8 bytes and the separator spaces; invalid UTF-8 in the
/// payload passes through.
pub proof fn law_payload_bytes_preserved(prefix: Seq<char>, separator: nat, payload: Seq<u8>)
    ensures
        ({
            let out = stamped_bytes(prefix, separator, payload);
            let head = vstd::utf8::encode_utf8(prefix).len() + separator;
            &&& out.len() == head + payload.len()
            &&& out.skip(head as int) == payload
            &&& out.take(vstd::utf8::encode_utf8(prefix).len() as int) == vstd::utf8::encode_utf8(
                prefix,
            )
            &&& forall|i: int|
                vstd::utf8::encode_utf8(prefix).len() <= i < head ==> #[trigger] out[i] == 32u8
        }),
{
    let out = stamped_bytes(prefix, separator, payload);
    let head = vstd::utf8::encode_utf8(prefix).len() + separator;
    assert(out.skip(head as int) =~= payload);
    assert(out.take(vstd::utf8::encode_utf8(prefix).len() as int) =~= vstd::utf8::encode_utf8(prefix));
}

} // verus!
