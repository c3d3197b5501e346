//! The per-line timestamping step shared by the line iterators and the
//! pipelines: from the clock reading at a line, the prefix that the line
//! gets, and how the remembered instants (program start, previous line)
//! move on.

use vstd::prelude::*;
use crate::error::Error;
use crate::time::format::{format_text, format_with, format_with_rule};
use crate::time::instant::{nanos_between, valid_instant, Timestamp, NANOS_PER_SEC};
use crate::time::tz::{rendered_as, rule_of, TimezoneSource, ZoneRule};

verus! {

/// Which instant a line's prefix shows.
#[non_exhaustive]
#[derive(Debug, Clone, Copy, PartialEq, Eq, Structural)]
pub enum ElapsedAnchor {
    /// The wall-clock instant of the line. Default.
    Absolute,
    /// The time elapsed since the previous line (`-i`).
    SincePreviousLine,
    /// The time elapsed since the program started (`-s`).
    SinceProgramStart,
}

impl Default for ElapsedAnchor {
    fn default() -> (r: Self)
        ensures
            r == ElapsedAnchor::Absolute,
    {
        ElapsedAnchor::Absolute
    }
}

/// The remembered instants: when the program (or stream) started and when
/// the previous line arrived; `None` until the first line sets them.
pub struct LineStamper {
    program_start: Option<Timestamp>,
    previous_line_at: Option<Timestamp>,
}

/// The view of an optional instant.
pub open spec fn opt_instant(t: Option<Timestamp>) -> Option<(i64, u32)> {
    match t {
        Some(x) => Some(x@),
        None => None,
    }
}

impl View for LineStamper {
    type V = (Option<(i64, u32)>, Option<(i64, u32)>);

    closed spec fn view(&self) -> (Option<(i64, u32)>, Option<(i64, u32)>) {
        (opt_instant(self.program_start), opt_instant(self.previous_line_at))
    }
}

/// The start instant in force at a line read at `now`: the remembered one,
/// or `now` itself for the first line.
pub open spec fn start_at(state: (Option<(i64, u32)>, Option<(i64, u32)>), now: (i64, u32)) -> (
    i64,
    u32,
) {
    match state.0 {
        Some(t) => t,
        None => now,
    }
}

/// The previous-line instant in force at a line read at `now`: the
/// remembered one, or the start instant for the first line.
pub open spec fn previous_at(state: (Option<(i64, u32)>, Option<(i64, u32)>), now: (i64, u32)) -> (
    i64,
    u32,
) {
    match state.1 {
        Some(t) => t,
        None => start_at(state, now),
    }
}

/// The remembered instants after a line read at `now`: the start is kept,
/// and the previous-line instant becomes `now` when elapsed time since the
/// previous line is shown.
pub open spec fn state_after(
    state: (Option<(i64, u32)>, Option<(i64, u32)>),
    anchor: ElapsedAnchor,
    now: (i64, u32),
) -> (Option<(i64, u32)>, Option<(i64, u32)>) {
    (
        Some(start_at(state, now)),
        if anchor == ElapsedAnchor::SincePreviousLine {
            Some(now)
        } else {
            Some(previous_at(state, now))
        },
    )
}

/// The instant that shows an elapsed span: the span from `since` to `now`
/// (none if negative) taken as an instant after the epoch, or the epoch
/// itself where that instant would lie beyond the representable range.
pub open spec fn elapsed_instant(now: (i64, u32), since: (i64, u32)) -> (i64, u32) {
    let span = nanos_between(now, since);
    let d: int = if span < 0 {
        0
    } else {
        span
    };
    let secs = d / (NANOS_PER_SEC as int);
    let nanos = d % (NANOS_PER_SEC as int);
    if valid_instant(secs, nanos) {
        (secs as i64, nanos as u32)
    } else {
        (0i64, 0u32)
    }
}

/// The prefix of a line read at `now`, through the format `spec`: the
/// instant itself under `rule`, or an elapsed span rendered in UTC.
pub open spec fn prefix_text(
    spec: Seq<char>,
    anchor: ElapsedAnchor,
    rule: ZoneRule,
    state: (Option<(i64, u32)>, Option<(i64, u32)>),
    now: (i64, u32),
) -> Option<Seq<char>> {
    match anchor {
        ElapsedAnchor::Absolute => format_text(spec, rule, now),
        ElapsedAnchor::SincePreviousLine => format_text(
            spec,
            ZoneRule::Utc,
            elapsed_instant(now, previous_at(state, now)),
        ),
        ElapsedAnchor::SinceProgramStart => format_text(
            spec,
            ZoneRule::Utc,
            elapsed_instant(now, start_at(state, now)),
        ),
    }
}

/// The prefixes of successive lines read at the instants `nows` (the line
/// at index `i` shown under `rules[i]`), starting from `state`, with the
/// state after them; `None` where one of them cannot be rendered.
pub open spec fn prefixes(
    spec: Seq<char>,
    anchor: ElapsedAnchor,
    rules: Seq<ZoneRule>,
    nows: Seq<(i64, u32)>,
    state: (Option<(i64, u32)>, Option<(i64, u32)>),
) -> Option<(Seq<Seq<char>>, (Option<(i64, u32)>, Option<(i64, u32)>))>
    decreases nows.len(),
{
    if nows.len() == 0 {
        Some((Seq::empty(), state))
    } else {
        match prefixes(spec, anchor, rules.drop_last(), nows.drop_last(), state) {
            Some((done, s)) => match prefix_text(spec, anchor, rules[nows.len() - 1], s, nows.last()) {
                Some(p) => Some((done.push(p), state_after(s, anchor, nows.last()))),
                None => None,
            },
            None => None,
        }
    }
}

/// One more line: its prefix is rendered from the state the earlier lines
/// left, and the state moves on.
pub proof fn lemma_prefixes_step(
    spec: Seq<char>,
    anchor: ElapsedAnchor,
    rules: Seq<ZoneRule>,
    nows: Seq<(i64, u32)>,
    state: (Option<(i64, u32)>, Option<(i64, u32)>),
    rule: ZoneRule,
    now: (i64, u32),
)
    requires
        rules.len() == nows.len(),
    ensures
        prefixes(spec, anchor, rules.push(rule), nows.push(now), state) == match prefixes(
            spec,
            anchor,
            rules,
            nows,
            state,
        ) {
            Some((done, s)) => match prefix_text(spec, anchor, rule, s, now) {
                Some(p) => Some((done.push(p), state_after(s, anchor, now))),
                None => None,
            },
            None => None,
        },
{
    assert(rules.push(rule).drop_last() =~= rules);
    assert(nows.push(now).drop_last() =~= nows);
    assert(rules.push(rule)[nows.push(now).len() - 1] == rule);
}

/// Where the first `k` lines already fail, so do all of them.
pub proof fn lemma_prefixes_fail_onward(
    spec: Seq<char>,
    anchor: ElapsedAnchor,
    rules: Seq<ZoneRule>,
    nows: Seq<(i64, u32)>,
    state: (Option<(i64, u32)>, Option<(i64, u32)>),
    k: int,
)
    requires
        0 <= k <= nows.len(),
        nows.len() == rules.len(),
        prefixes(spec, anchor, rules.take(k), nows.take(k), state) is None,
    ensures
        prefixes(spec, anchor, rules, nows, state) is None,
    decreases nows.len() - k,
{
    if k < nows.len() {
        assert(rules.take(k + 1).drop_last() =~= rules.take(k));
        assert(nows.take(k + 1).drop_last() =~= nows.take(k));
        lemma_prefixes_fail_onward(spec, anchor, rules, nows, state, k + 1);
    } else {
        assert(rules.take(k) =~= rules);
        assert(nows.take(k) =~= nows);
    }
}

/// The first line of a fresh stream shows zero elapsed time, in either
/// elapsed mode; so does any line read at the instant the state started.
pub proof fn law_first_line_elapsed_is_zero(
    spec: Seq<char>,
    rule: ZoneRule,
    now: (i64, u32),
    start: (i64, u32),
)
    ensures
        prefix_text(spec, ElapsedAnchor::SinceProgramStart, rule, (None, None), now) == format_text(
            spec,
            ZoneRule::Utc,
            (0i64, 0u32),
        ),
        prefix_text(spec, ElapsedAnchor::SincePreviousLine, rule, (None, None), now) == format_text(
            spec,
            ZoneRule::Utc,
            (0i64, 0u32),
        ),
        prefix_text(spec, ElapsedAnchor::SinceProgramStart, rule, (Some(start), Some(start)), start)
            == format_text(spec, ZoneRule::Utc, (0i64, 0u32)),
        prefix_text(spec, ElapsedAnchor::SincePreviousLine, rule, (Some(start), Some(start)), start)
            == format_text(spec, ZoneRule::Utc, (0i64, 0u32)),
{
    assert(nanos_between(now, now) == 0);
    assert(nanos_between(start, start) == 0);
}

/// An elapsed span is never negative: a clock reading earlier than the
/// anchor shows zero.
pub proof fn law_elapsed_never_negative(now: (i64, u32), since: (i64, u32))
    requires
        nanos_between(now, since) <= 0,
    ensures
        elapsed_instant(now, since) == (0i64, 0u32),
{
}

/// In absolute mode each prefix is the line's own instant rendered under the
/// zone's rule, whatever the remembered instants are.
pub proof fn law_absolute_prefix_ignores_history(
    spec: Seq<char>,
    rule: ZoneRule,
    s1: (Option<(i64, u32)>, Option<(i64, u32)>),
    s2: (Option<(i64, u32)>, Option<(i64, u32)>),
    now: (i64, u32),
)
    ensures
        prefix_text(spec, ElapsedAnchor::Absolute, rule, s1, now) == prefix_text(
            spec,
            ElapsedAnchor::Absolute,
            rule,
            s2,
            now,
        ),
        prefix_text(spec, ElapsedAnchor::Absolute, rule, s1, now) == format_text(spec, rule, now),
{
}

/// The reading elapsed spans are measured from at line `i` of a stream
/// started at `start` with readings `nows`: the previous line's reading
/// when elapsed time since the previous line is shown (the start for the
/// first line), else the start.
pub open spec fn measured_from(
    anchor: ElapsedAnchor,
    start: (i64, u32),
    nows: Seq<(i64, u32)>,
    i: int,
) -> (i64, u32) {
    if anchor == ElapsedAnchor::SincePreviousLine && i > 0 {
        nows[i - 1]
    } else {
        start
    }
}

/// The prefix of line `i` of a stream started at `start`: its own reading
/// under its rule in absolute mode, else the span from
/// [`measured_from`] to its reading, shown in UTC.
pub open spec fn reading_prefix(
    spec: Seq<char>,
    anchor: ElapsedAnchor,
    rules: Seq<ZoneRule>,
    start: (i64, u32),
    nows: Seq<(i64, u32)>,
    i: int,
) -> Option<Seq<char>> {
    if anchor == ElapsedAnchor::Absolute {
        format_text(spec, rules[i], nows[i])
    } else {
        format_text(spec, ZoneRule::Utc, elapsed_instant(nows[i], measured_from(anchor, start, nows, i)))
    }
}

proof fn lemma_prefixes_by_reading(
    spec: Seq<char>,
    anchor: ElapsedAnchor,
    rules: Seq<ZoneRule>,
    nows: Seq<(i64, u32)>,
    start: (i64, u32),
)
    requires
        rules.len() == nows.len(),
    ensures
        (forall|i: int| 0 <= i < nows.len() ==> #[trigger] reading_prefix(spec, anchor, rules, start, nows, i) is Some)
            <==> prefixes(spec, anchor, rules, nows, (Some(start), Some(start))) is Some,
        prefixes(spec, anchor, rules, nows, (Some(start), Some(start))) matches Some((ps, s)) ==> {
            &&& ps.len() == nows.len()
            &&& s == (Some(start), Some(measured_from(anchor, start, nows, nows.len() as int)))
            &&& forall|i: int|
                0 <= i < nows.len() ==> Some(#[trigger] ps[i]) == reading_prefix(
                    spec,
                    anchor,
                    rules,
                    start,
                    nows,
                    i,
                )
        },
    decreases nows.len(),
{
    let init = (Some(start), Some(start));
    if nows.len() > 0 {
        let n = nows.len() - 1;
        let rs = rules.drop_last();
        let ns = nows.drop_last();
        lemma_prefixes_by_reading(spec, anchor, rs, ns, start);
        assert forall|i: int| 0 <= i < n implies #[trigger] reading_prefix(spec, anchor, rules, start, nows, i)
            == reading_prefix(spec, anchor, rs, start, ns, i) by {
            assert(rs[i] == rules[i] && ns[i] == nows[i]);
            if i > 0 {
                assert(ns[i - 1] == nows[i - 1]);
            }
        }
        if n > 0 {
            assert(ns[n - 1] == nows[n - 1]);
        }
        assert(measured_from(anchor, start, ns, n) == measured_from(anchor, start, nows, n));
        match prefixes(spec, anchor, rs, ns, init) {
            Some((done, s)) => {
                assert(prefix_text(spec, anchor, rules[n], s, nows[n]) == reading_prefix(
                    spec,
                    anchor,
                    rules,
                    start,
                    nows,
                    n,
                ));
                if let Some((ps, s2)) = prefixes(spec, anchor, rules, nows, init) {
                    assert forall|i: int| 0 <= i < nows.len() implies Some(#[trigger] ps[i])
                        == reading_prefix(spec, anchor, rules, start, nows, i) by {
                        if i < n {
                            assert(ps[i] == done[i]);
                        }
                    }
                    if anchor == ElapsedAnchor::SincePreviousLine {
                        assert(s2 == (Some(start), Some(nows[n])));
                    }
                } else {
                    assert(reading_prefix(spec, anchor, rules, start, nows, n) is None);
                }
            },
            None => {
                let k = choose|i: int| 0 <= i < n && #[trigger] reading_prefix(spec, anchor, rs, start, ns, i) is None;
                assert(reading_prefix(spec, anchor, rules, start, nows, k) is None);
            },
        }
    }
}

/// Over a stream started at `start` with readings `nows`, each line's prefix
/// is its own reading rendered under its rule (absolute), or the span from
/// the start (`-s`) or from the previous line's reading (`-i`; the start for
/// the first line) to its reading, rendered in UTC and zero where negative;
/// the stream renders exactly when every line's prefix does.
pub proof fn law_prefix_of_each_reading(
    spec: Seq<char>,
    anchor: ElapsedAnchor,
    rules: Seq<ZoneRule>,
    nows: Seq<(i64, u32)>,
    start: (i64, u32),
)
    requires
        rules.len() == nows.len(),
    ensures
        (forall|i: int| 0 <= i < nows.len() ==> #[trigger] reading_prefix(spec, anchor, rules, start, nows, i) is Some)
            <==> prefixes(spec, anchor, rules, nows, (Some(start), Some(start))) is Some,
        prefixes(spec, anchor, rules, nows, (Some(start), Some(start))) matches Some((ps, s)) ==> ps.len()
            == nows.len() && forall|i: int|
            0 <= i < nows.len() ==> Some(#[trigger] ps[i]) == reading_prefix(spec, anchor, rules, start, nows, i),
{
    lemma_prefixes_by_reading(spec, anchor, rules, nows, start);
}

/// A fresh stream (no instant remembered) remembers its first line's reading
/// as the start, and as the previous line's instant; from then on it runs
/// exactly as a stream started at that reading. So with `-s` the prefix of
/// line `i` is the span from the first line's reading to line `i`'s
/// reading, and with `-i` the first line shows zero.
pub proof fn law_fresh_stream_starts_at_first_reading(
    spec: Seq<char>,
    anchor: ElapsedAnchor,
    rules: Seq<ZoneRule>,
    nows: Seq<(i64, u32)>,
)
    requires
        rules.len() == nows.len(),
        nows.len() > 0,
    ensures
        state_after((None, None), anchor, nows[0]) == (Some(nows[0]), Some(nows[0])),
        prefixes(spec, anchor, rules, nows, (None, None)) == prefixes(
            spec,
            anchor,
            rules,
            nows,
            (Some(nows[0]), Some(nows[0])),
        ),
        (anchor != ElapsedAnchor::Absolute && prefixes(spec, anchor, rules, nows, (None, None)) is Some)
            ==> Some((prefixes(spec, anchor, rules, nows, (None, None))->0).0[0]) == format_text(
            spec,
            ZoneRule::Utc,
            (0i64, 0u32),
        ),
        (anchor == ElapsedAnchor::SinceProgramStart && prefixes(spec, anchor, rules, nows, (None, None)) is Some)
            ==> forall|i: int|
            0 <= i < nows.len() ==> Some(#[trigger] (prefixes(spec, anchor, rules, nows, (None, None))->0).0[i])
                == format_text(spec, ZoneRule::Utc, elapsed_instant(nows[i], nows[0])),
    decreases nows.len(),
{
    let n0 = nows[0];
    let fresh = (None::<(i64, u32)>, None::<(i64, u32)>);
    let started = (Some(n0), Some(n0));
    let rs = rules.drop_last();
    let ns = nows.drop_last();
    if nows.len() > 1 {
        assert(ns[0] == n0);
        law_fresh_stream_starts_at_first_reading(spec, anchor, rs, ns);
        assert(prefixes(spec, anchor, rs, ns, fresh) == prefixes(spec, anchor, rs, ns, started));
    } else {
        assert(prefixes(spec, anchor, rs, ns, fresh) == Some((Seq::<Seq<char>>::empty(), fresh)));
        assert(prefixes(spec, anchor, rs, ns, started) == Some((Seq::<Seq<char>>::empty(), started)));
        assert(start_at(fresh, n0) == start_at(started, n0));
        assert(previous_at(fresh, n0) == previous_at(started, n0));
        assert(prefix_text(spec, anchor, rules[0], fresh, n0) == prefix_text(spec, anchor, rules[0], started, n0));
        assert(state_after(fresh, anchor, n0) == state_after(started, anchor, n0));
    }
    lemma_prefixes_by_reading(spec, anchor, rules, nows, n0);
    assert(nanos_between(n0, n0) == 0);
}

/// A clock pinned at one instant shows every elapsed span as zero: where all
/// readings equal the start, each elapsed prefix is the epoch rendered in
/// UTC.
pub proof fn law_pinned_clock_elapsed_zero(
    spec: Seq<char>,
    anchor: ElapsedAnchor,
    rules: Seq<ZoneRule>,
    nows: Seq<(i64, u32)>,
    start: (i64, u32),
)
    requires
        rules.len() == nows.len(),
        anchor != ElapsedAnchor::Absolute,
        forall|i: int| 0 <= i < nows.len() ==> #[trigger] nows[i] == start,
    ensures
        prefixes(spec, anchor, rules, nows, (Some(start), Some(start))) matches Some((ps, s)) ==> forall|i: int|
            0 <= i < nows.len() ==> Some(#[trigger] ps[i]) == format_text(spec, ZoneRule::Utc, (0i64, 0u32)),
{
    lemma_prefixes_by_reading(spec, anchor, rules, nows, start);
    assert(nanos_between(start, start) == 0);
    assert forall|i: int| 0 <= i < nows.len() implies #[trigger] reading_prefix(spec, anchor, rules, start, nows, i)
        == format_text(spec, ZoneRule::Utc, (0i64, 0u32)) by {
        if i > 0 {
            assert(nows[i - 1] == start);
        }
        assert(nows[i] == start);
    }
}

/// A way of showing instants that `source` stands for.
pub open spec fn any_rule_of(source: TimezoneSource) -> ZoneRule {
    match source {
        TimezoneSource::Utc => ZoneRule::Utc,
        TimezoneSource::Named(zone) => ZoneRule::Iana(zone),
        TimezoneSource::Local => ZoneRule::FixedOffset(0),
    }
}

/// The instant that shows the span from `since` to `now` (see
/// [`elapsed_instant`]).
fn elapsed_instant_of(now: &Timestamp, since: &Timestamp) -> (r: Timestamp)
    ensures
        r@ == elapsed_instant(now@, since@),
{
    proof {
        use_type_invariant(now);
        use_type_invariant(since);
    }
    let span = now.signed_nanos_since(since);
    let d: i128 = if span < 0 {
        0
    } else {
        span
    };
    let secs = d / (NANOS_PER_SEC as i128);
    let nanos = d % (NANOS_PER_SEC as i128);
    match Timestamp::from_timestamp(secs as i64, nanos as u32) {
        Some(t) => t,
        None => Timestamp::epoch(),
    }
}

impl LineStamper {
    /// No instant remembered yet: the first line sets the start.
    pub fn new() -> (r: Self)
        ensures
            r@ == (None::<(i64, u32)>, None::<(i64, u32)>),
    {
        LineStamper { program_start: None, previous_line_at: None }
    }

    /// Started at `start`, which also counts as the previous line's instant.
    pub fn started_at(start: Timestamp) -> (r: Self)
        ensures
            r@ == (Some(start@), Some(start@)),
    {
        LineStamper { program_start: Some(start), previous_line_at: Some(start) }
    }

    /// The prefix of a line read at `now` through the format `spec`, and the
    /// remembered instants moved on (see [`prefix_text`] and
    /// [`state_after`]).
    pub fn prefix(&mut self, spec: &str, tz: &TimezoneSource, anchor: ElapsedAnchor, now: Timestamp) -> (r:
        Result<String, Error>)
        ensures
            final(self)@ == state_after(old(self)@, anchor, now@),
            exists|rule: ZoneRule|
                #[trigger] rule_of(*tz, rule) && rendered_as(
                    r,
                    prefix_text(spec@, anchor, rule, old(self)@, now@),
                    spec@,
                ),
    {
        let start = match self.program_start {
            Some(t) => t,
            None => now,
        };
        let previous = match self.previous_line_at {
            Some(t) => t,
            None => start,
        };
        self.program_start = Some(start);
        self.previous_line_at = Some(previous);
        proof {
            assert(rule_of(*tz, any_rule_of(*tz)));
        }
        match anchor {
            ElapsedAnchor::Absolute => {
                let rule = tz.rule_at(now);
                format_with_rule(spec, now, &rule)
            },
            ElapsedAnchor::SincePreviousLine => {
                self.previous_line_at = Some(now);
                let shown = elapsed_instant_of(&now, &previous);
                format_with_rule(spec, shown, &ZoneRule::Utc)
            },
            ElapsedAnchor::SinceProgramStart => {
                let shown = elapsed_instant_of(&now, &start);
                format_with_rule(spec, shown, &ZoneRule::Utc)
            },
        }
    }
}

} // verus!
