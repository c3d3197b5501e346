//! Relative-mode (`-r`) timestamp rewriter.
//!
//! Default mode recognises RFC 3339 date-times, ISO 8601 dates and Unix
//! epoch seconds (integer or fractional); Strict mode also recognises
//! `%Y-%m-%d %H:%M:%S` date-times. Each recognised timestamp is replaced by
//! its distance from a reference instant ("5s ago", "1m23s ago", "in 2h",
//! "now"); everything else passes through unchanged.

use vstd::prelude::*;
use vstd::string::StringSliceAdditionalSpecFns;
use vstd::utf8::{decode_utf8, encode_utf8};
use crate::matcher::{
    compile, find_all, regex_compiles, regex_find_all, span_well_placed, str_slice, Pattern,
};
use crate::mode::CompatibilityMode;
use crate::text::{chars_of, decimal_nat, push_char, push_decimal_u64};
use crate::time::instant::{nanos_between, valid_instant, whole_seconds, Timestamp, NANOS_PER_SEC};
use crate::time::parse::{
    date_midnight_secs, date_time_instant, parse_date_midnight, parse_date_time, parse_rfc3339,
    rfc3339_instant,
};

verus! {

broadcast use vstd::utf8::group_utf8_lib;

/// Strict-only date-time: `2026-05-22 14:30:45`.
pub const HUMAN_DATE_TIME_PATTERN: &'static str = "\\b\\d{4}-\\d{2}-\\d{2} \\d{2}:\\d{2}:\\d{2}\\b";

/// RFC 3339 date-time: `2026-05-22T14:30:45Z`, `2026-05-22T14:30:45.123+02:00`.
pub const RFC3339_PATTERN: &'static str = "\\b\\d{4}-\\d{2}-\\d{2}T\\d{2}:\\d{2}:\\d{2}(?:\\.\\d+)?(?:Z|[+-]\\d{2}:?\\d{2})\\b";

/// ISO 8601 date: `2026-05-22`.
pub const ISO_DATE_PATTERN: &'static str = "\\b\\d{4}-\\d{2}-\\d{2}\\b";

/// Ten-digit Unix epoch seconds with an optional fraction: `1779798645.123`.
pub const UNIX_EPOCH_PATTERN: &'static str = "\\b1\\d{9}(?:\\.\\d+)?\\b";

/// How a recognised timestamp is read.
#[derive(Debug, Clone, Copy, PartialEq, Eq, Structural)]
pub enum ParserKind {
    Iso8601,
    Rfc3339,
    UnixEpoch,
    /// Strict only: `%Y-%m-%d %H:%M:%S` read as UTC.
    HumanDateTime,
}

#[derive(Debug)]
struct RecognizedPattern {
    re: Pattern,
    parser: ParserKind,
}

/// The compiled patterns of one mode, each with the way its matches are
/// read. More specific patterns come first.
#[derive(Debug)]
pub struct RelativeRewriter {
    patterns: Vec<RecognizedPattern>,
}

impl View for RelativeRewriter {
    type V = Seq<(Seq<char>, ParserKind)>;

    closed spec fn view(&self) -> Seq<(Seq<char>, ParserKind)> {
        self.patterns@.map_values(|p: RecognizedPattern| (p.re@, p.parser))
    }
}

/// The patterns of a mode, most specific first.
pub open spec fn mode_patterns(mode: CompatibilityMode) -> Seq<(Seq<char>, ParserKind)> {
    let base = seq![
        (RFC3339_PATTERN@, ParserKind::Rfc3339),
        (ISO_DATE_PATTERN@, ParserKind::Iso8601),
        (UNIX_EPOCH_PATTERN@, ParserKind::UnixEpoch),
    ];
    if mode == CompatibilityMode::Strict {
        seq![(HUMAN_DATE_TIME_PATTERN@, ParserKind::HumanDateTime)] + base
    } else {
        base
    }
}

/// The patterns of `ps` that `regex` compiles, in order.
pub open spec fn compiled_patterns(ps: Seq<(Seq<char>, ParserKind)>) -> Seq<(Seq<char>, ParserKind)>
    decreases ps.len(),
{
    if ps.len() == 0 {
        ps
    } else {
        let rest = compiled_patterns(ps.drop_last());
        if regex_compiles(ps.last().0) {
            rest.push(ps.last())
        } else {
            rest
        }
    }
}

// ───────────── recognising timestamps ─────────────

/// Byte spans of one pattern's matches, each tagged with its reading.
pub open spec fn tagged(spans: Seq<(usize, usize)>, kind: ParserKind) -> Seq<(usize, usize, ParserKind)> {
    spans.map_values(|s: (usize, usize)| (s.0, s.1, kind))
}

/// The matches of every pattern in `line`, pattern by pattern.
pub open spec fn all_spans(ps: Seq<(Seq<char>, ParserKind)>, line: Seq<char>) -> Seq<
    (usize, usize, ParserKind),
>
    decreases ps.len(),
{
    if ps.len() == 0 {
        Seq::empty()
    } else {
        all_spans(ps.drop_last(), line) + tagged(regex_find_all(ps.last().0, line), ps.last().1)
    }
}

/// Where a span starting at `key` goes in `sorted`: after the last span that
/// starts at or before `key`.
pub open spec fn insert_pos(sorted: Seq<(usize, usize, ParserKind)>, key: usize) -> int
    decreases sorted.len(),
{
    if sorted.len() == 0 {
        0
    } else if sorted.last().0 > key {
        insert_pos(sorted.drop_last(), key)
    } else {
        sorted.len() as int
    }
}

/// `spans` stably sorted by start: spans with equal starts keep their order.
pub open spec fn sorted_by_start(spans: Seq<(usize, usize, ParserKind)>) -> Seq<
    (usize, usize, ParserKind),
>
    decreases spans.len(),
{
    if spans.len() == 0 {
        spans
    } else {
        let sorted = sorted_by_start(spans.drop_last());
        sorted.insert(insert_pos(sorted, spans.last().0), spans.last())
    }
}

/// The spans kept from `sorted`: each span that starts before the end of
/// the last kept span is dropped.
pub open spec fn kept_spans(sorted: Seq<(usize, usize, ParserKind)>) -> Seq<(usize, usize, ParserKind)>
    decreases sorted.len(),
{
    if sorted.len() == 0 {
        sorted
    } else {
        let kept = kept_spans(sorted.drop_last());
        if kept.len() > 0 && sorted.last().0 < kept.last().1 {
            kept
        } else {
            kept.push(sorted.last())
        }
    }
}

// ───────────── reading timestamps ─────────────

pub open spec fn is_ascii_digit(c: char) -> bool {
    '0' <= c <= '9'
}

pub open spec fn all_ascii_digits(s: Seq<char>) -> bool {
    forall|i: int| 0 <= i < s.len() ==> is_ascii_digit(#[trigger] s[i])
}

/// The value of a run of decimal digits.
pub open spec fn digits_value(s: Seq<char>) -> nat
    decreases s.len(),
{
    if s.len() == 0 {
        0
    } else {
        digits_value(s.drop_last()) * 10 + ((s.last() as u32 - 48) as nat)
    }
}

/// `10` to the power `n`.
pub open spec fn pow10(n: nat) -> nat
    decreases n,
{
    if n == 0 {
        1
    } else {
        10 * pow10((n - 1) as nat)
    }
}

/// What `i64::from_str` gives: an optional sign then one or more ASCII
/// digits, within the range of `i64`.
pub open spec fn parse_i64(s: Seq<char>) -> Option<i64> {
    let negative = s.len() > 0 && s[0] == '-';
    let digits = if s.len() > 0 && (s[0] == '-' || s[0] == '+') {
        s.drop_first()
    } else {
        s
    };
    let value: int = if negative {
        -(digits_value(digits) as int)
    } else {
        digits_value(digits) as int
    };
    if digits.len() == 0 || !all_ascii_digits(digits) || value < i64::MIN || value > i64::MAX {
        None
    } else {
        Some(value as i64)
    }
}

/// Nanoseconds of a decimal fraction given by its digits: the first nine
/// digits, padded with zeros on the right.
pub open spec fn fraction_nanos(digits: Seq<char>) -> nat {
    if digits.len() >= 9 {
        digits_value(digits.take(9))
    } else {
        digits_value(digits) * pow10((9 - digits.len()) as nat)
    }
}

/// The first position of `c` in `s`.
pub open spec fn first_index_of(s: Seq<char>, c: char, from: int) -> Option<int>
    decreases s.len() - from,
{
    if from < 0 || from >= s.len() {
        None
    } else if s[from] == c {
        Some(from)
    } else {
        first_index_of(s, c, from + 1)
    }
}

/// Unix epoch seconds, optionally followed by a dot and a decimal fraction
/// (read digit by digit, to the nanosecond).
pub open spec fn epoch_instant(token: Seq<char>) -> Option<(i64, u32)> {
    match first_index_of(token, '.', 0) {
        Some(dot) => match parse_i64(token.take(dot)) {
            Some(secs) => if all_ascii_digits(token.skip(dot + 1)) {
                Some((secs, fraction_nanos(token.skip(dot + 1)) as u32))
            } else {
                None
            },
            None => None,
        },
        None => match parse_i64(token) {
            Some(secs) => Some((secs, 0u32)),
            None => None,
        },
    }
}

/// `Some(t)` where `t` is a UTC instant, `None` otherwise.
pub open spec fn if_valid(t: Option<(i64, u32)>) -> Option<(i64, u32)> {
    match t {
        Some(p) => if valid_instant(p.0 as int, p.1 as int) {
            Some(p)
        } else {
            None
        },
        None => None,
    }
}

/// The UTC instant a recognised timestamp denotes, if it can be read.
pub open spec fn token_instant(token: Seq<char>, kind: ParserKind) -> Option<(i64, u32)> {
    match kind {
        ParserKind::Rfc3339 => if_valid(rfc3339_instant(token)),
        ParserKind::Iso8601 => match date_midnight_secs(token) {
            Some(secs) => if_valid(Some((secs, 0u32))),
            None => None,
        },
        ParserKind::UnixEpoch => if_valid(epoch_instant(token)),
        ParserKind::HumanDateTime => if_valid(date_time_instant(token)),
    }
}

// ───────────── relative text ─────────────

/// A count with its unit letter, or nothing where the count is zero.
pub open spec fn unit_if_any(n: nat, unit: char) -> Seq<char> {
    if n > 0 {
        decimal_nat(n) + seq![unit]
    } else {
        Seq::empty()
    }
}

/// The two leading units of a positive number of seconds, the second left
/// out where it is zero: `1d2h`, `2h`, `3h4m`, `5m6s`, `5m` or `7s`.
pub open spec fn relative_body(total: nat) -> Seq<char> {
    let days = total / 86400;
    let hours = (total % 86400) / 3600;
    let mins = (total % 3600) / 60;
    let rest = total % 60;
    if days > 0 {
        decimal_nat(days) + seq!['d'] + unit_if_any(hours, 'h')
    } else if hours > 0 {
        decimal_nat(hours) + seq!['h'] + unit_if_any(mins, 'm')
    } else if mins > 0 {
        decimal_nat(mins) + seq!['m'] + unit_if_any(rest, 's')
    } else {
        decimal_nat(rest) + seq!['s']
    }
}

/// The distance from `target` to `reference`, in whole seconds (truncated
/// toward zero), rendered as `now`, `<body> ago` (target not later than
/// reference) or `in <body>` (see [`relative_body`]).
pub open spec fn relative_text(reference: (i64, u32), target: (i64, u32)) -> Seq<char> {
    let secs = whole_seconds(nanos_between(reference, target));
    let total: nat = if secs < 0 {
        (-secs) as nat
    } else {
        secs as nat
    };
    if total == 0 {
        seq!['n', 'o', 'w']
    } else if secs >= 0 {
        relative_body(total) + seq![' ', 'a', 'g', 'o']
    } else {
        seq!['i', 'n', ' '] + relative_body(total)
    }
}

// ───────────── the rewritten line ─────────────

/// What replaces a kept span: the relative text of its instant, or the
/// span's own text where it cannot be read.
pub open spec fn replacement(bytes: Seq<u8>, span: (usize, usize, ParserKind), reference: (i64, u32)) -> Seq<char> {
    let token = decode_utf8(bytes.subrange(span.0 as int, span.1 as int));
    match token_instant(token, span.2) {
        Some(t) => relative_text(reference, t),
        None => token,
    }
}

/// The line from byte `cursor` on, with the kept spans from index `i` on
/// replaced.
pub open spec fn assemble(
    bytes: Seq<u8>,
    kept: Seq<(usize, usize, ParserKind)>,
    i: int,
    cursor: int,
    reference: (i64, u32),
) -> Seq<char>
    decreases kept.len() - i,
{
    if i < 0 || i >= kept.len() {
        decode_utf8(bytes.subrange(cursor, bytes.len() as int))
    } else {
        decode_utf8(bytes.subrange(cursor, kept[i].0 as int)) + replacement(bytes, kept[i], reference)
            + assemble(bytes, kept, i + 1, kept[i].1 as int, reference)
    }
}

/// The matches a rewrite replaces: the matches of all patterns, stably
/// sorted by start, with each match that starts inside an earlier kept one
/// dropped.
pub open spec fn replaced_matches(patterns: Seq<(Seq<char>, ParserKind)>, line: Seq<char>) -> Seq<
    (usize, usize, ParserKind),
> {
    kept_spans(sorted_by_start(all_spans(patterns, line)))
}

/// The line with the given matches replaced: stably sorted by start, each
/// match that starts inside an earlier kept one dropped, each kept one
/// replaced (see [`replacement`]).
pub open spec fn rewritten_with(
    matches: Seq<(usize, usize, ParserKind)>,
    line: Seq<char>,
    reference: (i64, u32),
) -> Seq<char> {
    assemble(encode_utf8(line), kept_spans(sorted_by_start(matches)), 0, 0, reference)
}

/// The line with every recognised timestamp replaced by its relative form
/// (see [`replaced_matches`] and [`replacement`]).
pub open spec fn rewritten(
    patterns: Seq<(Seq<char>, ParserKind)>,
    line: Seq<char>,
    reference: (i64, u32),
) -> Seq<char> {
    rewritten_with(all_spans(patterns, line), line, reference)
}

/// The text of the span cannot be read as a timestamp of its kind.
pub open spec fn unreadable(bytes: Seq<u8>, span: (usize, usize, ParserKind)) -> bool {
    token_instant(decode_utf8(bytes.subrange(span.0 as int, span.1 as int)), span.2) is None
}

// ───────────── laws ─────────────

proof fn lemma_no_spans(ps: Seq<(Seq<char>, ParserKind)>, line: Seq<char>)
    requires
        forall|k: int| 0 <= k < ps.len() ==> #[trigger] regex_find_all(ps[k].0, line).len() == 0,
    ensures
        all_spans(ps, line).len() == 0,
    decreases ps.len(),
{
    if ps.len() > 0 {
        assert forall|k: int| 0 <= k < ps.drop_last().len() implies #[trigger] regex_find_all(
            ps.drop_last()[k].0,
            line,
        ).len() == 0 by {
            assert(ps.drop_last()[k] == ps[k]);
        }
        lemma_no_spans(ps.drop_last(), line);
        assert(regex_find_all(ps[ps.len() - 1].0, line).len() == 0);
    }
}

/// A line in which no pattern matches passes through unchanged.
pub proof fn law_unmatched_line_passes_through(
    patterns: Seq<(Seq<char>, ParserKind)>,
    line: Seq<char>,
    reference: (i64, u32),
)
    requires
        forall|k: int|
            0 <= k < patterns.len() ==> #[trigger] regex_find_all(patterns[k].0, line).len() == 0,
    ensures
        rewritten(patterns, line, reference) == line,
{
    lemma_no_spans(patterns, line);
    let spans = all_spans(patterns, line);
    assert(spans =~= Seq::<(usize, usize, ParserKind)>::empty());
    let bytes = encode_utf8(line);
    assert(bytes.subrange(0, bytes.len() as int) =~= bytes);
    vstd::utf8::encode_utf8_decode_utf8(line);
}

/// The span from `a` to `b` is the negation of the span from `b` to `a`.
pub proof fn lemma_nanos_between_antisymmetric(a: (i64, u32), b: (i64, u32))
    ensures
        nanos_between(a, b) == -nanos_between(b, a),
{
}

proof fn lemma_whole_seconds_odd(n: int)
    ensures
        whole_seconds(-n) == -whole_seconds(n),
{
}

/// Relative forms mirror each other: the distance from `t` to `r` reads
/// `now` exactly when the distance from `r` to `t` does, and otherwise the
/// one reads `<body> ago` exactly when the other reads `in <body>`.
pub proof fn law_relative_forms_mirror(r: (i64, u32), t: (i64, u32))
    ensures
        ({
            let secs = whole_seconds(nanos_between(r, t));
            &&& secs == 0 ==> relative_text(r, t) == seq!['n', 'o', 'w'] && relative_text(t, r)
                == seq!['n', 'o', 'w']
            &&& secs > 0 ==> relative_text(r, t) == relative_body(secs as nat) + seq![' ', 'a', 'g', 'o']
                && relative_text(t, r) == seq!['i', 'n', ' '] + relative_body(secs as nat)
            &&& secs < 0 ==> relative_text(t, r) == relative_body((-secs) as nat) + seq![
                ' ',
                'a',
                'g',
                'o',
            ] && relative_text(r, t) == seq!['i', 'n', ' '] + relative_body((-secs) as nat)
        }),
{
    lemma_nanos_between_antisymmetric(r, t);
    lemma_whole_seconds_odd(nanos_between(r, t));
}

/// A timestamp reads `now` exactly when it lies less than a second from the
/// reference, on either side.
pub proof fn law_now_within_a_second(r: (i64, u32), t: (i64, u32))
    ensures
        relative_text(r, t) == seq!['n', 'o', 'w'] <==> -(NANOS_PER_SEC as int) < nanos_between(r, t)
            < NANOS_PER_SEC as int,
{
    let secs = whole_seconds(nanos_between(r, t));
    if secs != 0 {
        let total: nat = if secs < 0 {
            (-secs) as nat
        } else {
            secs as nat
        };
        lemma_relative_body_nonempty(total);
        if secs >= 0 {
            assert((relative_body(total) + seq![' ', 'a', 'g', 'o']).len() > 3);
        } else {
            assert((seq!['i', 'n', ' '] + relative_body(total)).len() > 3);
        }
    }
}

/// The relative body of a positive number of seconds names its largest
/// whole unit in full and then the next unit down, where that is not zero:
/// under a minute the seconds; under an hour the whole minutes, then the
/// leftover seconds; under a day the whole hours (`total / 3600`), then
/// the leftover whole minutes; else the whole days, then the leftover whole
/// hours. So the units shown, read back, give `total` less what lies below
/// the last unit shown.
pub proof fn law_relative_body_denotes_total(total: nat)
    requires
        total > 0,
    ensures
        total < 60 ==> relative_body(total) == decimal_nat(total) + seq!['s'],
        60 <= total < 3600 ==> relative_body(total) == decimal_nat(total / 60) + seq!['m'] + (if total
            % 60 > 0 {
            decimal_nat(total % 60) + seq!['s']
        } else {
            Seq::empty()
        }),
        3600 <= total < 86400 ==> relative_body(total) == decimal_nat(total / 3600) + seq!['h'] + (if (
        total - (total / 3600) * 3600) / 60 > 0 {
            decimal_nat(((total - (total / 3600) * 3600) / 60) as nat) + seq!['m']
        } else {
            Seq::empty()
        }),
        86400 <= total ==> relative_body(total) == decimal_nat(total / 86400) + seq!['d'] + (if (total
            - (total / 86400) * 86400) / 3600 > 0 {
            decimal_nat(((total - (total / 86400) * 86400) / 3600) as nat) + seq!['h']
        } else {
            Seq::empty()
        }),
{
    let days = total / 86400;
    let hours = (total % 86400) / 3600;
    let mins = (total % 3600) / 60;
    assert(total == days * 86400 + total % 86400);
    assert(total == (total / 3600) * 3600 + total % 3600);
    if total < 86400 {
        assert(days == 0);
        assert(total % 86400 == total);
        assert(hours == total / 3600);
        assert(mins == (total - (total / 3600) * 3600) / 60);
    } else {
        assert(hours == (total - days * 86400) / 3600);
    }
    if total < 3600 {
        assert(hours == 0) by {
            assert(total % 86400 == total);
        }
        assert(total % 3600 == total);
        assert(mins == total / 60);
    }
    if total < 60 {
        assert(mins == 0);
        assert(total % 60 == total);
    }
}

/// Strict mode recognises what Default mode does, and the
/// `%Y-%m-%d %H:%M:%S` date-time before it.
pub proof fn law_strict_patterns_extend_default()
    ensures
        mode_patterns(CompatibilityMode::Strict) == seq![
            (HUMAN_DATE_TIME_PATTERN@, ParserKind::HumanDateTime),
        ] + mode_patterns(CompatibilityMode::Default),
{
}

proof fn lemma_compiled_concat(a: Seq<(Seq<char>, ParserKind)>, b: Seq<(Seq<char>, ParserKind)>)
    ensures
        compiled_patterns(a + b) == compiled_patterns(a) + compiled_patterns(b),
    decreases b.len(),
{
    if b.len() == 0 {
        assert(a + b =~= a);
        assert(compiled_patterns(a) + compiled_patterns(b) =~= compiled_patterns(a));
    } else {
        assert((a + b).drop_last() =~= a + b.drop_last());
        assert((a + b).last() == b.last());
        lemma_compiled_concat(a, b.drop_last());
        let rest = compiled_patterns(b.drop_last());
        assert((compiled_patterns(a) + rest).push(b.last()) =~= compiled_patterns(a) + rest.push(b.last()));
    }
}

proof fn lemma_all_spans_concat(
    a: Seq<(Seq<char>, ParserKind)>,
    b: Seq<(Seq<char>, ParserKind)>,
    line: Seq<char>,
)
    ensures
        all_spans(a + b, line) == all_spans(a, line) + all_spans(b, line),
    decreases b.len(),
{
    if b.len() == 0 {
        assert(a + b =~= a);
        assert(all_spans(a, line) + all_spans(b, line) =~= all_spans(a, line));
    } else {
        assert((a + b).drop_last() =~= a + b.drop_last());
        assert((a + b).last() == b.last());
        lemma_all_spans_concat(a, b.drop_last(), line);
        let t = tagged(regex_find_all(b.last().0, line), b.last().1);
        assert(all_spans(a, line) + all_spans(b.drop_last(), line) + t =~= all_spans(a, line) + (
        all_spans(b.drop_last(), line) + t));
    }
}

/// On a line where the `%Y-%m-%d %H:%M:%S` pattern matches nothing, Strict
/// mode rewrites exactly as Default mode does.
pub proof fn law_strict_matches_default_without_date_times(line: Seq<char>, reference: (i64, u32))
    requires
        regex_find_all(HUMAN_DATE_TIME_PATTERN@, line).len() == 0,
    ensures
        rewritten(compiled_patterns(mode_patterns(CompatibilityMode::Strict)), line, reference)
            == rewritten(compiled_patterns(mode_patterns(CompatibilityMode::Default)), line, reference),
{
    let head = seq![(HUMAN_DATE_TIME_PATTERN@, ParserKind::HumanDateTime)];
    let base = mode_patterns(CompatibilityMode::Default);
    law_strict_patterns_extend_default();
    lemma_compiled_concat(head, base);
    let ch = compiled_patterns(head);
    let cb = compiled_patterns(base);
    lemma_all_spans_concat(ch, cb, line);
    let none = Seq::<(Seq<char>, ParserKind)>::empty();
    assert(head.drop_last() =~= none);
    assert(compiled_patterns(none) == none);
    assert(all_spans(none, line) =~= Seq::<(usize, usize, ParserKind)>::empty());
    if regex_compiles(HUMAN_DATE_TIME_PATTERN@) {
        assert(ch =~= none.push(head[0]));
        assert(ch.drop_last() =~= none);
        assert(ch.last() == head[0]);
        assert(tagged(regex_find_all(HUMAN_DATE_TIME_PATTERN@, line), ParserKind::HumanDateTime)
            =~= Seq::<(usize, usize, ParserKind)>::empty());
    } else {
        assert(ch == none);
    }
    assert(all_spans(ch, line) =~= Seq::<(usize, usize, ParserKind)>::empty());
    assert(all_spans(ch + cb, line) =~= all_spans(cb, line));
}

/// Each span starts no earlier than the one before it.
pub open spec fn starts_ordered(spans: Seq<(usize, usize, ParserKind)>) -> bool {
    forall|i: int, j: int|
        #![trigger spans[i], spans[j]]
        0 <= i < j < spans.len() ==> spans[i].0 <= spans[j].0
}

proof fn lemma_insert_pos(sorted: Seq<(usize, usize, ParserKind)>, key: usize)
    requires
        starts_ordered(sorted),
    ensures
        0 <= insert_pos(sorted, key) <= sorted.len(),
        forall|i: int| 0 <= i < insert_pos(sorted, key) ==> (#[trigger] sorted[i]).0 <= key,
        forall|i: int| insert_pos(sorted, key) <= i < sorted.len() ==> (#[trigger] sorted[i]).0 > key,
    decreases sorted.len(),
{
    if sorted.len() > 0 {
        let rest = sorted.drop_last();
        if sorted.last().0 > key {
            assert(starts_ordered(rest)) by {
                assert forall|i: int, j: int| 0 <= i < j < rest.len() implies rest[i].0 <= rest[j].0 by {
                    assert(rest[i] == sorted[i] && rest[j] == sorted[j]);
                }
            }
            lemma_insert_pos(rest, key);
            assert forall|i: int| insert_pos(sorted, key) <= i < sorted.len() implies (
            #[trigger] sorted[i]).0 > key by {
                if i < rest.len() {
                    assert(rest[i] == sorted[i]);
                }
            }
            assert forall|i: int| 0 <= i < insert_pos(sorted, key) implies (
            #[trigger] sorted[i]).0 <= key by {
                assert(rest[i] == sorted[i]);
            }
        } else {
            assert forall|i: int| 0 <= i < insert_pos(sorted, key) implies (
            #[trigger] sorted[i]).0 <= key by {
                if i < sorted.len() - 1 {
                    assert(sorted[i].0 <= sorted[sorted.len() - 1].0);
                }
            }
        }
    }
}

#[verifier::spinoff_prover]
#[verifier::rlimit(80)]
proof fn lemma_sorted_by_start(spans: Seq<(usize, usize, ParserKind)>)
    ensures
        starts_ordered(sorted_by_start(spans)),
        sorted_by_start(spans).to_multiset() == spans.to_multiset(),
    decreases spans.len(),
{
    broadcast use vstd::seq_lib::to_multiset_build, vstd::seq_lib::to_multiset_insert;

    if spans.len() > 0 {
        let front = spans.drop_last();
        let x = spans.last();
        lemma_sorted_by_start(front);
        let rest = sorted_by_start(front);
        let p = insert_pos(rest, x.0);
        lemma_insert_pos(rest, x.0);
        rest.insert_ensures(p, x);
        let r = rest.insert(p, x);
        assert(r == sorted_by_start(spans));
        assert forall|i: int, j: int| 0 <= i < j < r.len() implies r[i].0 <= r[j].0 by {
            if j < p {
                assert(r[i] == rest[i] && r[j] == rest[j]);
            } else if j == p {
                if i < p {
                    assert(r[i] == rest[i]);
                }
            } else if i < p {
                assert(r[i] == rest[i] && r[j] == rest[j - 1]);
            } else if i == p {
                assert(r[j] == rest[j - 1]);
            } else {
                assert(r[i] == rest[i - 1] && r[j] == rest[j - 1]);
            }
        }
        assert(front.push(x) == spans);
    } else {
        assert(sorted_by_start(spans) == spans);
    }
}

proof fn lemma_kept_spans(sorted: Seq<(usize, usize, ParserKind)>)
    ensures
        chained(kept_spans(sorted)),
        forall|k: int|
            0 <= k < kept_spans(sorted).len() ==> sorted.contains(#[trigger] kept_spans(sorted)[k]),
    decreases sorted.len(),
{
    if sorted.len() > 0 {
        let front = sorted.drop_last();
        lemma_kept_spans(front);
        let kept = kept_spans(front);
        assert forall|k: int| 0 <= k < kept.len() implies sorted.contains(#[trigger] kept[k]) by {
            let w = choose|w: int| 0 <= w < front.len() && front[w] == kept[k];
            assert(sorted[w] == front[w]);
        }
        assert(sorted[sorted.len() - 1] == sorted.last());
        let r = kept_spans(sorted);
        if !(kept.len() > 0 && sorted.last().0 < kept.last().1) {
            assert forall|k: int| 0 <= k < r.len() - 1 implies (#[trigger] r[k]).1 <= r[k + 1].0 by {
                assert(r[k] == kept[k]);
                if k + 1 < kept.len() {
                    assert(r[k + 1] == kept[k + 1]);
                }
            }
        }
    }
}

proof fn lemma_kept_prefix(sorted: Seq<(usize, usize, ParserKind)>, i: int, j: int)
    requires
        0 <= i <= j <= sorted.len(),
    ensures
        kept_spans(sorted.take(i)).len() <= kept_spans(sorted.take(j)).len(),
        kept_spans(sorted.take(j)).take(kept_spans(sorted.take(i)).len() as int) == kept_spans(sorted.take(i)),
    decreases j - i,
{
    if i < j {
        lemma_kept_prefix(sorted, i, j - 1);
        assert(sorted.take(j).drop_last() =~= sorted.take(j - 1));
        let a = kept_spans(sorted.take(i));
        let b = kept_spans(sorted.take(j - 1));
        let c = kept_spans(sorted.take(j));
        if c != b {
            assert(c == b.push(sorted.take(j).last()));
            assert(c.take(a.len() as int) =~= b.take(a.len() as int));
        }
    } else {
        let a = kept_spans(sorted.take(i));
        assert(a.take(a.len() as int) =~= a);
    }
}

/// The kept matches are as many as can be kept: a match that starts at or
/// after the end of the last match kept before it is kept, as the next
/// replaced match; only a match that starts inside an earlier kept one is
/// dropped; and what is kept among the first matches stays at the front of
/// what is kept in the end.
pub proof fn law_kept_matches_maximal(sorted: Seq<(usize, usize, ParserKind)>)
    ensures
        forall|i: int|
            0 <= i < sorted.len() && (kept_spans(sorted.take(i)).len() == 0 || kept_spans(
                sorted.take(i),
            ).last().1 <= sorted[i].0) ==> #[trigger] kept_spans(sorted.take(i + 1)) == kept_spans(
                sorted.take(i),
            ).push(sorted[i]),
        forall|i: int|
            0 <= i < sorted.len() && kept_spans(sorted.take(i)).len() > 0 && sorted[i].0 < kept_spans(
                sorted.take(i),
            ).last().1 ==> #[trigger] kept_spans(sorted.take(i + 1)) == kept_spans(sorted.take(i)),
        forall|i: int|
            0 <= i <= sorted.len() ==> kept_spans(sorted).take(
                (#[trigger] kept_spans(sorted.take(i))).len() as int,
            ) == kept_spans(sorted.take(i)),
{
    assert forall|i: int|
        0 <= i < sorted.len() implies #[trigger] kept_spans(sorted.take(i + 1)) == if kept_spans(
            sorted.take(i),
        ).len() > 0 && sorted[i].0 < kept_spans(sorted.take(i)).last().1 {
            kept_spans(sorted.take(i))
        } else {
            kept_spans(sorted.take(i)).push(sorted[i])
        } by {
        assert(sorted.take(i + 1).drop_last() =~= sorted.take(i));
        assert(sorted.take(i + 1).last() == sorted[i]);
    }
    assert(sorted.take(sorted.len() as int) =~= sorted);
    assert forall|i: int| 0 <= i <= sorted.len() implies kept_spans(sorted).take(
        (#[trigger] kept_spans(sorted.take(i))).len() as int,
    ) == kept_spans(sorted.take(i)) by {
        lemma_kept_prefix(sorted, i, sorted.len() as int);
    }
}

/// The matches a rewrite replaces are those of all patterns ordered by
/// start (a reordering of them, nothing lost or added), with each match that
/// starts inside an earlier kept one dropped: every replaced match is one of
/// the patterns' matches, and each ends no later than the next one starts.
pub proof fn law_replaced_matches_ordered_and_disjoint(
    patterns: Seq<(Seq<char>, ParserKind)>,
    line: Seq<char>,
)
    ensures
        ({
            let all = all_spans(patterns, line);
            let sorted = sorted_by_start(all);
            let kept = replaced_matches(patterns, line);
            &&& starts_ordered(sorted)
            &&& sorted.to_multiset() == all.to_multiset()
            &&& chained(kept)
            &&& forall|k: int| 0 <= k < kept.len() ==> all.contains(#[trigger] kept[k])
        }),
{
    broadcast use vstd::seq_lib::to_multiset_contains;

    let all = all_spans(patterns, line);
    let sorted = sorted_by_start(all);
    lemma_sorted_by_start(all);
    lemma_kept_spans(sorted);
    let kept = kept_spans(sorted);
    assert forall|k: int| 0 <= k < kept.len() implies all.contains(#[trigger] kept[k]) by {
        assert(sorted.contains(kept[k]));
        assert(sorted.to_multiset().count(kept[k]) > 0);
    }
}

proof fn lemma_relative_body_nonempty(total: nat)
    ensures
        relative_body(total).len() > 0,
{
}

// ───────────── executable ─────────────

proof fn lemma_compiled_step(ps: Seq<(Seq<char>, ParserKind)>, k: int)
    requires
        0 <= k < ps.len(),
    ensures
        compiled_patterns(ps.take(k + 1)) == if regex_compiles(ps[k].0) {
            compiled_patterns(ps.take(k)).push(ps[k])
        } else {
            compiled_patterns(ps.take(k))
        },
{
    assert(ps.take(k + 1).drop_last() =~= ps.take(k));
    assert(ps.take(k + 1).last() == ps[k]);
}

impl RelativeRewriter {
    /// Compiles the patterns of `mode`, most specific first (in Strict mode
    /// the date-time pattern, then RFC 3339, ISO 8601 date and Unix epoch).
    /// A pattern that `regex` would reject is left out.
    pub fn for_mode(mode: CompatibilityMode) -> (r: Self)
        ensures
            r@ == compiled_patterns(mode_patterns(mode)),
    {
        let mut patterns: Vec<RecognizedPattern> = Vec::new();
        let ghost ps = mode_patterns(mode);
        let ghost mut done: int = 0;
        proof {
            assert(patterns@.map_values(|p: RecognizedPattern| (p.re@, p.parser)) =~= compiled_patterns(
                ps.take(0),
            ));
        }
        if mode == CompatibilityMode::Strict {
            Self::add(&mut patterns, HUMAN_DATE_TIME_PATTERN, ParserKind::HumanDateTime);
            proof {
                lemma_compiled_step(ps, 0);
                done = 1;
            }
        }
        Self::add(&mut patterns, RFC3339_PATTERN, ParserKind::Rfc3339);
        proof {
            lemma_compiled_step(ps, done);
        }
        Self::add(&mut patterns, ISO_DATE_PATTERN, ParserKind::Iso8601);
        proof {
            lemma_compiled_step(ps, done + 1);
        }
        Self::add(&mut patterns, UNIX_EPOCH_PATTERN, ParserKind::UnixEpoch);
        proof {
            lemma_compiled_step(ps, done + 2);
            assert(ps.take(done + 3) =~= ps);
        }
        RelativeRewriter { patterns }
    }

    /// Appends the compiled `source`, read as `parser`, where `regex`
    /// accepts it.
    fn add(patterns: &mut Vec<RecognizedPattern>, source: &str, parser: ParserKind)
        ensures
            final(patterns)@.map_values(|p: RecognizedPattern| (p.re@, p.parser)) == if regex_compiles(
                source@,
            ) {
                old(patterns)@.map_values(|p: RecognizedPattern| (p.re@, p.parser)).push(
                    (source@, parser),
                )
            } else {
                old(patterns)@.map_values(|p: RecognizedPattern| (p.re@, p.parser))
            },
    {
        match compile(source) {
            Some(re) => {
                patterns.push(RecognizedPattern { re, parser });
                assert(patterns@.map_values(|p: RecognizedPattern| (p.re@, p.parser)) =~= old(
                    patterns,
                )@.map_values(|p: RecognizedPattern| (p.re@, p.parser)).push((source@, parser)));
            },
            None => {},
        }
    }
}

proof fn lemma_digits_value_prefix(s: Seq<char>, k: int)
    requires
        0 <= k <= s.len(),
    ensures
        digits_value(s.take(k)) <= digits_value(s),
    decreases s.len(),
{
    if k < s.len() {
        assert(s.drop_last().take(k) =~= s.take(k));
        lemma_digits_value_prefix(s.drop_last(), k);
    } else {
        assert(s.take(k) =~= s);
    }
}

proof fn lemma_digits_value_step(s: Seq<char>, k: int)
    requires
        0 <= k < s.len(),
    ensures
        digits_value(s.take(k + 1)) == digits_value(s.take(k)) * 10 + ((s[k] as u32 - 48) as nat),
{
    assert(s.take(k + 1).drop_last() =~= s.take(k));
}

/// The value of the ASCII digits `chars[from..to]`, or `None` where one is
/// not a digit or the value exceeds `limit`.
fn digits_up_to(chars: &Vec<char>, from: usize, to: usize, limit: u64) -> (r: Option<u64>)
    requires
        from <= to <= chars.len(),
        limit >= 9,
    ensures
        r matches Some(v) ==> all_ascii_digits(chars@.subrange(from as int, to as int)) && v
            == digits_value(chars@.subrange(from as int, to as int)) && v <= limit,
        r is None ==> !all_ascii_digits(chars@.subrange(from as int, to as int)) || digits_value(
            chars@.subrange(from as int, to as int),
        ) > limit,
{
    let ghost s = chars@.subrange(from as int, to as int);
    let mut value: u64 = 0;
    let mut i = from;
    while i < to
        invariant
            from <= i <= to <= chars.len(),
            s == chars@.subrange(from as int, to as int),
            all_ascii_digits(s.take(i - from)),
            value == digits_value(s.take(i - from)),
            value <= limit,
            limit >= 9,
        decreases to - i,
    {
        let c = chars[i];
        proof {
            lemma_digits_value_step(s, i - from);
        }
        if c < '0' || c > '9' {
            return None;
        }
        let d = (c as u32 - 48) as u64;
        if value > (limit - d) / 10 {
            proof {
                lemma_digits_value_prefix(s, i - from + 1);
            }
            return None;
        }
        value = value * 10 + d;
        i = i + 1;
        assert(all_ascii_digits(s.take(i - from)));
    }
    assert(s.take(to - from) =~= s);
    Some(value)
}

/// `i64::from_str` on `chars[from..to]` (see [`parse_i64`]).
fn parse_i64_chars(chars: &Vec<char>, from: usize, to: usize) -> (r: Option<i64>)
    requires
        from <= to <= chars.len(),
    ensures
        r == parse_i64(chars@.subrange(from as int, to as int)),
{
    let ghost s = chars@.subrange(from as int, to as int);
    let mut start = from;
    let mut negative = false;
    if from < to && (chars[from] == '-' || chars[from] == '+') {
        negative = chars[from] == '-';
        start = from + 1;
        assert(chars@.subrange(start as int, to as int) =~= s.drop_first());
    } else {
        assert(chars@.subrange(start as int, to as int) =~= s);
    }
    if start == to {
        return None;
    }
    let limit: u64 = if negative { 9223372036854775808 } else { 9223372036854775807 };
    match digits_up_to(chars, start, to, limit) {
        Some(v) => {
            if negative {
                Some((0i128 - v as i128) as i64)
            } else {
                Some(v as i64)
            }
        },
        None => None,
    }
}

/// Nanoseconds of the decimal fraction `chars[from..to]` (see
/// [`fraction_nanos`]), or `None` where one of its characters is not an
/// ASCII digit.
fn fraction_nanos_chars(chars: &Vec<char>, from: usize, to: usize) -> (r: Option<u32>)
    requires
        from <= to <= chars.len(),
    ensures
        r matches Some(n) ==> all_ascii_digits(chars@.subrange(from as int, to as int)) && n
            == fraction_nanos(chars@.subrange(from as int, to as int)),
        r is None ==> !all_ascii_digits(chars@.subrange(from as int, to as int)),
{
    let ghost s = chars@.subrange(from as int, to as int);
    // Every character must be a digit.
    let mut i = from;
    while i < to
        invariant
            from <= i <= to <= chars.len(),
            s == chars@.subrange(from as int, to as int),
            forall|k: int| 0 <= k < i - from ==> is_ascii_digit(#[trigger] s[k]),
        decreases to - i,
    {
        if chars[i] < '0' || chars[i] > '9' {
            assert(!is_ascii_digit(s[i - from]));
            return None;
        }
        i = i + 1;
    }
    assert(all_ascii_digits(s));
    let len = to - from;
    proof {
        reveal_with_fuel(pow10, 10);
        assert(pow10(9) == 1000000000);
    }
    if len >= 9 {
        let ghost head = chars@.subrange(from as int, from + 9);
        proof {
            assert(head =~= s.take(9));
            assert(all_ascii_digits(head));
            lemma_digits_value_bound(head);
        }
        match digits_up_to(chars, from, from + 9, 999999999) {
            Some(v) => Some(v as u32),
            None => None,
        }
    } else {
        proof {
            lemma_digits_value_bound(s);
            lemma_pow10_split(len as nat, (9 - len) as nat);
            lemma_pow10_monotone(0, (9 - len) as nat);
        }
        let value = match digits_up_to(chars, from, to, 999999999) {
            Some(v) => v,
            None => {
                proof {
                    lemma_pow10_monotone(len as nat, 9);
                }
                return None;
            },
        };
        let mut scale: u64 = 1;
        let mut k = len;
        while k < 9
            invariant
                len <= k <= 9,
                scale == pow10((k - len) as nat),
            decreases 9 - k,
        {
            proof {
                lemma_pow10_split((k - len) as nat, 1);
                lemma_pow10_monotone((k - len + 1) as nat, 9);
                reveal_with_fuel(pow10, 10);
            }
            scale = scale * 10;
            k = k + 1;
        }
        proof {
            assert(value * scale < pow10(len as nat) * scale) by (nonlinear_arith)
                requires
                    value < pow10(len as nat),
                    scale >= 1,
            ;
        }
        Some((value * scale) as u32)
    }
}

proof fn lemma_digits_value_bound(s: Seq<char>)
    requires
        all_ascii_digits(s),
    ensures
        digits_value(s) < pow10(s.len()),
    decreases s.len(),
{
    if s.len() > 0 {
        assert(all_ascii_digits(s.drop_last()));
        lemma_digits_value_bound(s.drop_last());
        assert(is_ascii_digit(s[s.len() - 1]));
    }
}

proof fn lemma_pow10_monotone(a: nat, b: nat)
    requires
        a <= b,
    ensures
        pow10(a) <= pow10(b),
        pow10(a) >= 1,
    decreases b,
{
    if b > a {
        lemma_pow10_monotone(a, (b - 1) as nat);
    } else if a > 0 {
        lemma_pow10_monotone((a - 1) as nat, (a - 1) as nat);
    }
}

proof fn lemma_pow10_split(a: nat, b: nat)
    ensures
        pow10(a + b) == pow10(a) * pow10(b),
    decreases a,
{
    if a > 0 {
        lemma_pow10_split((a - 1) as nat, b);
        assert(pow10(a + b) == 10 * pow10((a - 1 + b) as nat));
        assert(pow10(a) == 10 * pow10((a - 1) as nat));
        vstd::arithmetic::mul::lemma_mul_is_associative(10, pow10((a - 1) as nat) as int, pow10(b) as int);
    } else {
        assert(pow10(0) == 1);
        assert(a + b == b);
    }
}

/// The first position of `c` in `chars`.
fn find_char(chars: &Vec<char>, c: char) -> (r: Option<usize>)
    ensures
        r matches Some(i) ==> first_index_of(chars@, c, 0) == Some(i as int) && i < chars.len(),
        r is None ==> first_index_of(chars@, c, 0) is None,
{
    let mut i: usize = 0;
    while i < chars.len()
        invariant
            i <= chars.len(),
            first_index_of(chars@, c, 0) == first_index_of(chars@, c, i as int),
        decreases chars.len() - i,
    {
        if chars[i] == c {
            return Some(i);
        }
        i = i + 1;
    }
    None
}

/// Reads Unix epoch seconds with an optional decimal fraction (see
/// [`epoch_instant`]).
fn read_epoch(chars: &Vec<char>) -> (r: Option<(i64, u32)>)
    ensures
        r == epoch_instant(chars@),
{
    let n = chars.len();
    assert(chars@.subrange(0, n as int) =~= chars@);
    match find_char(chars, '.') {
        Some(dot) => {
            assert(chars@.subrange(0, dot as int) =~= chars@.take(dot as int));
            assert(chars@.subrange(dot + 1, n as int) =~= chars@.skip(dot + 1));
            match parse_i64_chars(chars, 0, dot) {
                Some(secs) => match fraction_nanos_chars(chars, dot + 1, n) {
                    Some(nanos) => Some((secs, nanos)),
                    None => None,
                },
                None => None,
            }
        },
        None => match parse_i64_chars(chars, 0, n) {
            Some(secs) => Some((secs, 0)),
            None => None,
        },
    }
}

/// The instant a recognised timestamp of the given kind denotes, if it can
/// be read (see [`token_instant`]): RFC 3339 and `%Y-%m-%d %H:%M:%S`
/// through `chrono`, a date as its midnight UTC, and epoch seconds digit by
/// digit.
pub fn parse_token(token: &str, parser: ParserKind) -> (r: Option<Timestamp>)
    ensures
        r matches Some(t) ==> token_instant(token@, parser) == Some(t@),
        r is None ==> token_instant(token@, parser) is None,
{
    let raw = match parser {
        ParserKind::Rfc3339 => parse_rfc3339(token),
        ParserKind::Iso8601 => match parse_date_midnight(token) {
            Some(secs) => Some((secs, 0u32)),
            None => None,
        },
        ParserKind::UnixEpoch => read_epoch(&chars_of(token)),
        ParserKind::HumanDateTime => parse_date_time(token),
    };
    match raw {
        Some((secs, nanos)) => Timestamp::from_timestamp(secs, nanos),
        None => None,
    }
}

/// Every span lies within the line's bytes on character boundaries.
pub open spec fn all_placed(spans: Seq<(usize, usize, ParserKind)>, line: Seq<char>) -> bool {
    forall|i: int|
        0 <= i < spans.len() ==> span_well_placed(((#[trigger] spans[i]).0, spans[i].1), line)
}

/// Each span ends no later than the next one starts.
pub open spec fn chained(spans: Seq<(usize, usize, ParserKind)>) -> bool {
    forall|i: int| 0 <= i < spans.len() - 1 ==> (#[trigger] spans[i]).1 <= spans[i + 1].0
}

impl RelativeRewriter {
    /// The matches of every pattern in `line`, pattern by pattern.
    fn collect_spans(&self, line: &str) -> (r: Vec<(usize, usize, ParserKind)>)
        ensures
            r@ == all_spans(self@, line@),
            all_placed(r@, line@),
    {
        let mut all: Vec<(usize, usize, ParserKind)> = Vec::new();
        let mut k: usize = 0;
        assert(self@.take(0) =~= Seq::<(Seq<char>, ParserKind)>::empty());
        while k < self.patterns.len()
            invariant
                k <= self.patterns.len(),
                self@.len() == self.patterns.len(),
                all@ == all_spans(self@.take(k as int), line@),
                all_placed(all@, line@),
            decreases self.patterns.len() - k,
        {
            let found = find_all(&self.patterns[k].re, line);
            let kind = self.patterns[k].parser;
            let ghost before = all@;
            assert(self@[k as int] == (self.patterns@[k as int].re@, kind));
            let mut j: usize = 0;
            while j < found.len()
                invariant
                    j <= found.len(),
                    all@ == before + tagged(found@.take(j as int), kind),
                    all_placed(all@, line@),
                    crate::matcher::spans_well_placed(found@, line@),
                decreases found.len() - j,
            {
                let (start, end) = found[j];
                all.push((start, end, kind));
                j = j + 1;
                assert(tagged(found@.take(j as int), kind) =~= tagged(found@.take(j - 1), kind).push(
                    (start, end, kind),
                ));
                assert(span_well_placed(found@[j - 1], line@));
            }
            assert(found@.take(j as int) =~= found@);
            assert(self@.take(k + 1).drop_last() =~= self@.take(k as int));
            k = k + 1;
        }
        assert(self@.take(k as int) =~= self@);
        all
    }
}

/// `spans` stably sorted by start (see [`sorted_by_start`]).
fn sort_spans(spans: &Vec<(usize, usize, ParserKind)>, line: Ghost<Seq<char>>) -> (r: Vec<
    (usize, usize, ParserKind),
>)
    requires
        all_placed(spans@, line@),
    ensures
        r@ == sorted_by_start(spans@),
        all_placed(r@, line@),
{
    let mut sorted: Vec<(usize, usize, ParserKind)> = Vec::new();
    let mut i: usize = 0;
    assert(spans@.take(0) =~= Seq::<(usize, usize, ParserKind)>::empty());
    while i < spans.len()
        invariant
            i <= spans.len(),
            sorted@ == sorted_by_start(spans@.take(i as int)),
            all_placed(sorted@, line@),
            all_placed(spans@, line@),
        decreases spans.len() - i,
    {
        let x = spans[i];
        let mut p = sorted.len();
        assert(sorted@.take(p as int) =~= sorted@);
        while p > 0 && sorted[p - 1].0 > x.0
            invariant
                p <= sorted.len(),
                insert_pos(sorted@, x.0) == insert_pos(sorted@.take(p as int), x.0),
            decreases p,
        {
            assert(sorted@.take(p as int).drop_last() =~= sorted@.take(p - 1));
            p = p - 1;
        }
        proof {
            if p > 0 {
                assert(sorted@.take(p as int).last() == sorted@[p - 1]);
            }
            assert(spans@.take(i + 1).drop_last() =~= spans@.take(i as int));
            assert(span_well_placed((spans@[i as int].0, spans@[i as int].1), line@));
        }
        let ghost before = sorted@;
        sorted.insert(p, x);
        i = i + 1;
        proof {
            assert forall|k: int| 0 <= k < sorted@.len() implies span_well_placed(
                ((#[trigger] sorted@[k]).0, sorted@[k].1),
                line@,
            ) by {
                if k < p as int {
                    assert(sorted@[k] == before[k]);
                } else if k > p as int {
                    assert(sorted@[k] == before[k - 1]);
                }
            }
        }
    }
    assert(spans@.take(i as int) =~= spans@);
    sorted
}

/// The spans kept from `sorted` (see [`kept_spans`]).
fn keep_spans(sorted: &Vec<(usize, usize, ParserKind)>, line: Ghost<Seq<char>>) -> (r: Vec<
    (usize, usize, ParserKind),
>)
    requires
        all_placed(sorted@, line@),
    ensures
        r@ == kept_spans(sorted@),
        all_placed(r@, line@),
        chained(r@),
{
    let mut kept: Vec<(usize, usize, ParserKind)> = Vec::new();
    let mut i: usize = 0;
    assert(sorted@.take(0) =~= Seq::<(usize, usize, ParserKind)>::empty());
    while i < sorted.len()
        invariant
            i <= sorted.len(),
            kept@ == kept_spans(sorted@.take(i as int)),
            all_placed(kept@, line@),
            all_placed(sorted@, line@),
            chained(kept@),
        decreases sorted.len() - i,
    {
        let m = sorted[i];
        proof {
            assert(sorted@.take(i + 1).drop_last() =~= sorted@.take(i as int));
            assert(span_well_placed((sorted@[i as int].0, sorted@[i as int].1), line@));
        }
        let overlaps = kept.len() > 0 && m.0 < kept[kept.len() - 1].1;
        if !overlaps {
            kept.push(m);
        }
        i = i + 1;
    }
    assert(sorted@.take(i as int) =~= sorted@);
    kept
}

/// The text of `line` between the byte offsets `from` and `to`.
fn slice_text(line: &str, from: usize, to: usize) -> (r: &str)
    requires
        span_well_placed((from, to), line@),
    ensures
        r@ == decode_utf8(encode_utf8(line@).subrange(from as int, to as int)),
{
    let piece = str_slice(line, from, to);
    proof {
        vstd::utf8::encode_utf8_decode_utf8(piece@);
    }
    piece
}

/// What replaces a kept span (see [`replacement`]).
fn replace_span(line: &str, span: (usize, usize, ParserKind), reference: Timestamp) -> (r: String)
    requires
        span_well_placed((span.0, span.1), line@),
    ensures
        r@ == replacement(encode_utf8(line@), span, reference@),
{
    let token = slice_text(line, span.0, span.1);
    match parse_token(token, span.2) {
        Some(target) => relative_form(reference, target),
        None => token.to_owned(),
    }
}

impl RelativeRewriter {
    /// Rewrites one line, replacing each recognised timestamp with its
    /// distance from `reference` (see [`rewritten`]). The matches of all
    /// patterns are ordered by start (ties keep pattern order), a match that
    /// starts inside an earlier kept one is dropped, and a match that cannot
    /// be read is left as it is.
    pub fn rewrite(&self, line: &str, reference: Timestamp) -> (r: String)
        ensures
            r@ == rewritten(self@, line@, reference@),
            (forall|k: int|
                0 <= k < replaced_matches(self@, line@).len() ==> unreadable(
                    encode_utf8(line@),
                    #[trigger] replaced_matches(self@, line@)[k],
                )) ==> r@ == line@,
    {
        let all = self.collect_spans(line);
        let out = replace_matches(line, &all, reference);
        proof {
            let km = kept_spans(sorted_by_start(all@));
            assert(km == replaced_matches(self@, line@));
            if forall|k: int|
                0 <= k < replaced_matches(self@, line@).len() ==> unreadable(
                    encode_utf8(line@),
                    #[trigger] replaced_matches(self@, line@)[k],
                ) {
                assert forall|k: int| 0 <= k < km.len() implies unreadable(
                    encode_utf8(line@),
                    #[trigger] km[k],
                ) by {
                    assert(km[k] == replaced_matches(self@, line@)[k]);
                }
            }
        }
        out
    }
}

/// Replaces the given matches in `line` (byte spans on character
/// boundaries, each tagged with its reading; see [`rewritten_with`]): they
/// are ordered by start (ties keep their order), a match that starts inside
/// an earlier kept one is dropped, and each kept match is replaced by its
/// distance from `reference`, or left as it is where it cannot be read. A
/// line whose kept matches all fail to read comes back unchanged.
pub fn replace_matches(line: &str, matches: &Vec<(usize, usize, ParserKind)>, reference: Timestamp) -> (r:
    String)
    requires
        all_placed(matches@, line@),
    ensures
        r@ == rewritten_with(matches@, line@, reference@),
        (forall|k: int|
            0 <= k < kept_spans(sorted_by_start(matches@)).len() ==> unreadable(
                encode_utf8(line@),
                #[trigger] kept_spans(sorted_by_start(matches@))[k],
            )) ==> r@ == line@,
{
    let sorted = sort_spans(matches, Ghost(line@));
    let kept = keep_spans(&sorted, Ghost(line@));
    let out = assemble_line(line, &kept, reference);
    proof {
        if forall|k: int|
            0 <= k < kept@.len() ==> unreadable(encode_utf8(line@), #[trigger] kept@[k]) {
            let bytes = encode_utf8(line@);
            vstd::utf8::encode_utf8_valid_utf8(line@);
            vstd::utf8::is_char_boundary_start_end_of_seq(bytes);
            lemma_assemble_unchanged(line@, kept@, 0, 0, reference@);
            assert(bytes.subrange(0, bytes.len() as int) =~= bytes);
            vstd::utf8::encode_utf8_decode_utf8(line@);
        }
    }
    out
}

proof fn lemma_decode_pieces(bytes: Seq<u8>, a: int, b: int, c: int)
    requires
        vstd::utf8::valid_utf8(bytes),
        0 <= a <= b <= c <= bytes.len(),
        vstd::utf8::is_char_boundary(bytes, a),
        vstd::utf8::is_char_boundary(bytes, b),
        vstd::utf8::is_char_boundary(bytes, c),
    ensures
        decode_utf8(bytes.subrange(a, c)) == decode_utf8(bytes.subrange(a, b)) + decode_utf8(
            bytes.subrange(b, c),
        ),
{
    let head = bytes.subrange(0, c);
    vstd::utf8::valid_utf8_split(bytes, c);
    if a < c {
        vstd::utf8::is_char_boundary_iff_not_is_continuation_byte(bytes, a);
        vstd::utf8::is_char_boundary_iff_not_is_continuation_byte(head, a);
        assert(head[a] == bytes[a]);
    } else {
        vstd::utf8::is_char_boundary_start_end_of_seq(head);
    }
    vstd::utf8::valid_utf8_split(head, a);
    let sub = head.subrange(a, c);
    assert(sub =~= bytes.subrange(a, c));
    if b < c {
        vstd::utf8::is_char_boundary_iff_not_is_continuation_byte(bytes, b);
        vstd::utf8::is_char_boundary_iff_not_is_continuation_byte(sub, b - a);
        assert(sub[b - a] == bytes[b]);
    } else {
        vstd::utf8::is_char_boundary_start_end_of_seq(sub);
    }
    vstd::utf8::decode_utf8_split(sub, b - a);
    assert(sub.subrange(0, b - a) =~= bytes.subrange(a, b));
    assert(sub.subrange(b - a, sub.len() as int) =~= bytes.subrange(b, c));
}

/// Where none of the kept spans from `i` on can be read, the rest of the
/// line from `cursor` comes out as it was.
proof fn lemma_assemble_unchanged(
    line: Seq<char>,
    kept: Seq<(usize, usize, ParserKind)>,
    i: int,
    cursor: int,
    reference: (i64, u32),
)
    requires
        all_placed(kept, line),
        chained(kept),
        0 <= i <= kept.len(),
        0 <= cursor <= encode_utf8(line).len(),
        vstd::utf8::is_char_boundary(encode_utf8(line), cursor),
        i < kept.len() ==> cursor <= kept[i].0,
        forall|k: int| i <= k < kept.len() ==> unreadable(encode_utf8(line), #[trigger] kept[k]),
    ensures
        assemble(encode_utf8(line), kept, i, cursor, reference) == decode_utf8(
            encode_utf8(line).subrange(cursor, encode_utf8(line).len() as int),
        ),
    decreases kept.len() - i,
{
    let bytes = encode_utf8(line);
    if i < kept.len() {
        let span = kept[i];
        assert(span_well_placed((span.0, span.1), line));
        assert(unreadable(bytes, span));
        if i + 1 < kept.len() {
            assert(span.1 <= kept[i + 1].0);
        }
        lemma_assemble_unchanged(line, kept, i + 1, span.1 as int, reference);
        vstd::utf8::encode_utf8_valid_utf8(line);
        vstd::utf8::is_char_boundary_start_end_of_seq(bytes);
        lemma_decode_pieces(bytes, cursor, span.0 as int, bytes.len() as int);
        lemma_decode_pieces(bytes, span.0 as int, span.1 as int, bytes.len() as int);
    }
}

proof fn lemma_next_piece_placed(
    kept: Seq<(usize, usize, ParserKind)>,
    line: Seq<char>,
    i: int,
    cursor: int,
)
    requires
        0 <= i < kept.len(),
        all_placed(kept, line),
        chained(kept),
        0 <= cursor,
        vstd::utf8::is_char_boundary(encode_utf8(line), cursor),
        i > 0 ==> cursor == kept[i - 1].1,
        i == 0 ==> cursor == 0,
    ensures
        span_well_placed((cursor as usize, kept[i].0), line),
        span_well_placed((kept[i].0, kept[i].1), line),
{
    assert(span_well_placed((kept[i].0, kept[i].1), line));
    if i > 0 {
        assert(kept[i - 1].1 <= kept[i].0);
        assert(span_well_placed((kept[i - 1].0, kept[i - 1].1), line));
    }
}

/// The line with the kept spans replaced (see [`assemble`]).
#[verifier::spinoff_prover]
#[verifier::rlimit(40)]
fn assemble_line(line: &str, kept: &Vec<(usize, usize, ParserKind)>, reference: Timestamp) -> (r: String)
    requires
        all_placed(kept@, line@),
        chained(kept@),
    ensures
        r@ == assemble(encode_utf8(line@), kept@, 0, 0, reference@),
{
    let ghost bytes = encode_utf8(line@);
    let ghost target = assemble(bytes, kept@, 0, 0, reference@);
    let len = line.as_bytes().len();
    proof {
        assert(line.spec_bytes() == bytes);
        vstd::utf8::encode_utf8_valid_utf8(line@);
        vstd::utf8::is_char_boundary_start_end_of_seq(bytes);
    }
    let mut out = String::new();
    let mut cursor: usize = 0;
    let mut i: usize = 0;
    while i < kept.len()
        invariant
            i <= kept.len(),
            len == bytes.len(),
            bytes == encode_utf8(line@),
            all_placed(kept@, line@),
            chained(kept@),
            cursor <= len,
            vstd::utf8::is_char_boundary(bytes, cursor as int),
            vstd::utf8::is_char_boundary(bytes, len as int),
            i > 0 ==> cursor == kept@[i - 1].1,
            i == 0 ==> cursor == 0,
            target == out@ + assemble(bytes, kept@, i as int, cursor as int, reference@),
        decreases kept.len() - i,
    {
        let span = kept[i];
        proof {
            lemma_next_piece_placed(kept@, line@, i as int, cursor as int);
        }
        let piece = slice_text(line, cursor, span.0);
        let text = replace_span(line, span, reference);
        let ghost before = out@;
        out.append(piece);
        out.append(text.as_str());
        assert(out@ =~= before + piece@ + text@);
        cursor = span.1;
        i = i + 1;
    }
    let tail = slice_text(line, cursor, len);
    out.append(tail);
    out
}

/// Appends the decimal digits of `n` and then the unit letter `unit`.
fn push_unit(out: &mut String, n: u64, unit: char)
    ensures
        final(out)@ == old(out)@ + decimal_nat(n as nat) + seq![unit],
{
    push_decimal_u64(out, n);
    push_char(out, unit);
}

/// Appends the decimal digits of `n` and the unit letter, where `n` is not
/// zero.
fn push_unit_if_any(out: &mut String, n: u64, unit: char)
    ensures
        final(out)@ == old(out)@ + unit_if_any(n as nat, unit),
{
    if n > 0 {
        push_unit(out, n, unit);
    } else {
        assert(out@ =~= old(out)@ + unit_if_any(n as nat, unit));
    }
}

/// Appends the two leading units of `total` seconds (see
/// [`relative_body`]).
fn push_relative_body(out: &mut String, total: u64)
    ensures
        final(out)@ == old(out)@ + relative_body(total as nat),
{
    let days = total / 86400;
    let hours = (total % 86400) / 3600;
    let mins = (total % 3600) / 60;
    let rest = total % 60;
    if days > 0 {
        push_unit(out, days, 'd');
        push_unit_if_any(out, hours, 'h');
    } else if hours > 0 {
        push_unit(out, hours, 'h');
        push_unit_if_any(out, mins, 'm');
    } else if mins > 0 {
        push_unit(out, mins, 'm');
        push_unit_if_any(out, rest, 's');
    } else {
        push_unit(out, rest, 's');
    }
    assert(out@ =~= old(out)@ + relative_body(total as nat));
}

/// Renders the distance from `target` to `reference` (see
/// [`relative_text`]): `now`, `<body> ago` or `in <body>`.
pub fn relative_form(reference: Timestamp, target: Timestamp) -> (r: String)
    ensures
        r@ == relative_text(reference@, target@),
{
    proof {
        use_type_invariant(&reference);
        use_type_invariant(&target);
    }
    let delta = reference.signed_nanos_since(&target);
    let nps: i128 = NANOS_PER_SEC as i128;
    let secs: i128 = if delta >= 0 {
        delta / nps
    } else {
        -((-delta) / nps)
    };
    assert(secs == whole_seconds(nanos_between(reference@, target@)));
    let total: u64 = if secs < 0 {
        (-secs) as u64
    } else {
        secs as u64
    };
    let mut out = String::new();
    if total == 0 {
        push_char(&mut out, 'n');
        push_char(&mut out, 'o');
        push_char(&mut out, 'w');
        assert(out@ =~= seq!['n', 'o', 'w']);
        return out;
    }
    if secs < 0 {
        push_char(&mut out, 'i');
        push_char(&mut out, 'n');
        push_char(&mut out, ' ');
        push_relative_body(&mut out, total);
        assert(out@ =~= seq!['i', 'n', ' '] + relative_body(total as nat));
    } else {
        push_relative_body(&mut out, total);
        push_char(&mut out, ' ');
        push_char(&mut out, 'a');
        push_char(&mut out, 'g');
        push_char(&mut out, 'o');
        assert(out@ =~= relative_body(total as nat) + seq![' ', 'a', 'g', 'o']);
    }
    out
}

} // verus!
