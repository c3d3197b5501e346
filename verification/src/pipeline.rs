//! The steps of the two line pipelines, from one input line to the bytes
//! written for it: prefix-each-line (absolute or elapsed timestamps) and the
//! `-r` relative rewriter. Reading, writing and the loop around them belong
//! to the caller.

use vstd::prelude::*;
use vstd::utf8::{decode_utf8, encode_utf8, valid_utf8};
use crate::error::Error;
use crate::matcher::regex_find_all;
use crate::relative::{law_unmatched_line_passes_through, rewritten, ParserKind, RelativeRewriter};
use crate::stamp::{prefix_text, prefixes, state_after, ElapsedAnchor, LineStamper};
use crate::time::clock::Clock;
use crate::time::instant::Timestamp;
use crate::time::tz::{rule_of, TimezoneSource, ZoneRule};
use crate::lines::{lines_of, split_lines};
use crate::time::instant::valid_instant;
use crate::{payloads, readings_for, stamp_lines, stamped_bytes, stamped_outcome};

verus! {

/// Which time value each line's prefix shows.
#[derive(Debug, Clone, Copy, PartialEq, Eq, Structural)]
pub enum PrefixSource {
    /// The wall-clock instant of the line.
    Absolute,
    /// The time elapsed since the previous line (`-i`); for the first line,
    /// since the start.
    SincePreviousLine,
    /// The time elapsed since the start (`-s`).
    SinceProgramStart,
}

/// The elapsed-time anchor a prefix source stands for.
pub open spec fn anchor_of(source: PrefixSource) -> ElapsedAnchor {
    match source {
        PrefixSource::Absolute => ElapsedAnchor::Absolute,
        PrefixSource::SincePreviousLine => ElapsedAnchor::SincePreviousLine,
        PrefixSource::SinceProgramStart => ElapsedAnchor::SinceProgramStart,
    }
}

/// Configuration of the prefix-each-line pipeline.
pub struct PrefixConfig<'a> {
    /// Strftime format.
    pub format: &'a str,
    /// Timezone the instants are shown in.
    pub tz: &'a TimezoneSource,
    /// Time source for the start and for each line.
    pub clock: &'a dyn Clock,
    /// Which time value each prefix shows.
    pub source: PrefixSource,
}

/// Configuration of the relative pipeline.
pub struct RelativeConfig<'a> {
    /// The compiled patterns of the mode.
    pub rewriter: &'a RelativeRewriter,
    /// The instant distances are measured from.
    pub reference: Timestamp,
}

impl PrefixSource {
    /// The elapsed-time anchor this source stands for.
    pub fn anchor(&self) -> (r: ElapsedAnchor)
        ensures
            r == anchor_of(*self),
    {
        match self {
            PrefixSource::Absolute => ElapsedAnchor::Absolute,
            PrefixSource::SincePreviousLine => ElapsedAnchor::SincePreviousLine,
            PrefixSource::SinceProgramStart => ElapsedAnchor::SinceProgramStart,
        }
    }
}

/// The state at the start of the pipeline: the clock's current reading is
/// both the start and the previous line's instant. Which instant the clock
/// gives is not known here; for a given reading,
/// [`LineStamper::started_at`] makes this state exactly.
pub fn prefix_start(cfg: &PrefixConfig) -> (r: LineStamper)
    ensures
        exists|start: Timestamp|
            cfg.clock.admits(#[trigger] start@) && r@ == (Some(start@), Some(start@)),
{
    let start = cfg.clock.now();
    LineStamper::started_at(start)
}

/// The bytes written for a line read at `now`: its prefix, two spaces and the
/// line's bytes as they came; the state moves on. Where the format cannot be
/// rendered, the error names it.
pub fn prefix_output(cfg: &PrefixConfig, stamper: &mut LineStamper, now: Timestamp, line: &[u8]) -> (r: Result<
    Vec<u8>,
    Error,
>)
    ensures
        final(stamper)@ == state_after(old(stamper)@, anchor_of(cfg.source), now@),
        exists|rule: ZoneRule|
            #[trigger] rule_of(*cfg.tz, rule) && match prefix_text(
                cfg.format@,
                anchor_of(cfg.source),
                rule,
                old(stamper)@,
                now@,
            ) {
                Some(p) => r matches Ok(v) && v@ == stamped_bytes(p, 2, line@),
                None => r matches Err(Error::InvalidFormat(f)) && f@ == cfg.format@,
            },
{
    let anchor = cfg.source.anchor();
    match stamper.prefix(cfg.format, cfg.tz, anchor, now) {
        Ok(p) => {
            let mut out: Vec<u8> = Vec::new();
            crate::push_bytes(&mut out, p.as_str().as_bytes());
            out.push(32u8);
            out.push(32u8);
            crate::push_bytes(&mut out, line);
            assert(out@ =~= stamped_bytes(p@, 2, line@));
            Ok(out)
        },
        Err(e) => Err(e),
    }
}

/// The whole prefix-each-line pipeline over the byte stream `input`: the
/// configured clock is read once at the start and once for each line (see
/// [`lines_of`]), in order; each line gets its prefix (an elapsed span is
/// measured from the start or from the previous line's reading, and shows
/// zero where it would be negative), two spaces and its bytes as they came.
/// Where the format cannot be rendered, the error names it.
pub fn prefix_stream(cfg: &PrefixConfig, input: &[u8]) -> (r: Result<Vec<Vec<u8>>, Error>)
    ensures
        exists|start: (i64, u32), rules: Seq<ZoneRule>, nows: Seq<(i64, u32)>|
            #![trigger readings_for(*cfg.tz, rules, nows, lines_of(input@).len()), cfg.clock.admits(start)]
            readings_for(*cfg.tz, rules, nows, lines_of(input@).len()) && cfg.clock.admits(start)
                && valid_instant(start.0 as int, start.1 as int) && (forall|i: int|
                0 <= i < nows.len() ==> #[trigger] cfg.clock.admits(nows[i])) && stamped_outcome(
                r,
                prefixes(cfg.format@, anchor_of(cfg.source), rules, nows, (Some(start), Some(start))),
                lines_of(input@),
                2,
                cfg.format@,
            ),
{
    let start = cfg.clock.now();
    let stamper = LineStamper::started_at(start);
    let lines = split_lines(input);
    proof {
        assert(payloads(lines@) =~= lines_of(input@));
    }
    stamp_lines(cfg.format, cfg.tz, cfg.source.anchor(), cfg.clock, stamper, &lines, 2)
}

/// The text `String::from_utf8_lossy` makes of `bytes`: invalid sequences
/// become U+FFFD.
pub uninterp spec fn lossy_text(bytes: Seq<u8>) -> Seq<char>;

/// Decodes `bytes` as UTF-8, replacing invalid sequences with U+FFFD
/// (`String::from_utf8_lossy`). Named by [`lossy_text`]; where the bytes
/// are valid UTF-8 the text is what they encode, as the documentation
/// states.
#[verifier::external_body]
fn utf8_lossy(bytes: &[u8]) -> (r: String)
    ensures
        r@ == lossy_text(bytes@),
        valid_utf8(bytes@) ==> r@ == decode_utf8(bytes@),
{
    String::from_utf8_lossy(bytes).into_owned()
}

/// The bytes written for a line in relative mode: the line decoded (invalid
/// UTF-8 replaced), with its recognised timestamps rewritten relative to the
/// reference instant, encoded again. A valid UTF-8 line is rewritten as the
/// text it encodes, and one in which no pattern matches comes out unchanged.
pub fn relative_output(cfg: &RelativeConfig, line: &[u8]) -> (r: Vec<u8>)
    ensures
        r@ == encode_utf8(rewritten(cfg.rewriter@, lossy_text(line@), cfg.reference@)),
        valid_utf8(line@) ==> r@ == encode_utf8(
            rewritten(cfg.rewriter@, decode_utf8(line@), cfg.reference@),
        ),
        valid_utf8(line@) && (forall|k: int|
            0 <= k < cfg.rewriter@.len() ==> #[trigger] regex_find_all(
                cfg.rewriter@[k].0,
                decode_utf8(line@),
            ).len() == 0) ==> r@ == line@,
{
    let text = utf8_lossy(line);
    let out = cfg.rewriter.rewrite(text.as_str(), cfg.reference);
    let mut bytes: Vec<u8> = Vec::new();
    crate::push_bytes(&mut bytes, out.as_str().as_bytes());
    proof {
        if valid_utf8(line@) {
            lemma_unmatched_text_unchanged(cfg.rewriter@, decode_utf8(line@), cfg.reference@);
            vstd::utf8::decode_utf8_encode_utf8(line@);
        }
    }
    bytes
}

proof fn lemma_unmatched_text_unchanged(
    patterns: Seq<(Seq<char>, ParserKind)>,
    line: Seq<char>,
    reference: (i64, u32),
)
    ensures
        (forall|k: int|
            0 <= k < patterns.len() ==> #[trigger] regex_find_all(patterns[k].0, line).len() == 0)
            ==> rewritten(patterns, line, reference) == line,
{
    if forall|k: int|
        0 <= k < patterns.len() ==> #[trigger] regex_find_all(patterns[k].0, line).len() == 0 {
        law_unmatched_line_passes_through(patterns, line, reference);
    }
}

/// The whole relative pipeline over the byte stream `input`: each of its
/// lines (see [`lines_of`]) as [`relative_output`] writes it, in order.
pub fn relative_stream(cfg: &RelativeConfig, input: &[u8]) -> (r: Vec<Vec<u8>>)
    ensures
        r.len() == lines_of(input@).len(),
        forall|i: int|
            0 <= i < r.len() ==> (#[trigger] r@[i])@ == encode_utf8(
                rewritten(cfg.rewriter@, lossy_text(lines_of(input@)[i]), cfg.reference@),
            ),
{
    let lines = split_lines(input);
    let ghost pieces = lines_of(input@);
    assert(lines@.map_values(|l: Vec<u8>| l@) =~= pieces);
    let mut out: Vec<Vec<u8>> = Vec::new();
    let mut i: usize = 0;
    while i < lines.len()
        invariant
            i <= lines.len(),
            lines@.map_values(|l: Vec<u8>| l@) == pieces,
            out.len() == i,
            forall|j: int|
                0 <= j < i ==> (#[trigger] out@[j])@ == encode_utf8(
                    rewritten(cfg.rewriter@, lossy_text(pieces[j]), cfg.reference@),
                ),
        decreases lines.len() - i,
    {
        let chunk = relative_output(cfg, lines[i].as_slice());
        assert(pieces[i as int] == lines@[i as int]@);
        out.push(chunk);
        i = i + 1;
    }
    out
}

} // verus!
