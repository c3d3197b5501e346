//! Clock sources: the system wall clock, a monotonic clock anchored at its
//! creation, and a fixed clock that always reports the same instant.

use vstd::prelude::*;
use crate::time::instant::{valid_instant, Timestamp, NANOS_PER_SEC};

verus! {

/// A source of the current instant.
pub trait Clock {
    /// Whether `t` is an instant this clock may report.
    spec fn admits(&self, t: (i64, u32)) -> bool;

    /// The current instant: one the clock admits and, like every
    /// `Timestamp`, a UTC instant.
    fn now(&self) -> (r: Timestamp)
        ensures
            self.admits(r@),
            valid_instant(r@.0 as int, r@.1 as int),
    ;
}

/// The current UTC instant as `chrono::Utc::now()` reports it, split into
/// epoch seconds and the nanosecond fraction. It depends on the time; what
/// is stated is that it is a UTC instant, as every `DateTime<Utc>` is.
#[verifier::external_body]
fn utc_now() -> (r: (i64, u32))
    ensures
        valid_instant(r.0 as int, r.1 as int),
{
    let now = chrono::Utc::now();
    (now.timestamp(), now.timestamp_subsec_nanos())
}

/// The system wall clock (`chrono::Utc::now`).
#[derive(Debug, Default, Clone, Copy)]
pub struct Wall;

impl Wall {
    /// The current wall-clock instant.
    pub fn current() -> (r: Timestamp)
        ensures
            valid_instant(r@.0 as int, r@.1 as int),
    {
        let (secs, nanos) = utc_now();
        match Timestamp::from_timestamp(secs, nanos) {
            Some(t) => t,
            None => Timestamp::epoch(),
        }
    }
}

impl Clock for Wall {
    /// The wall clock may report any UTC instant.
    open spec fn admits(&self, t: (i64, u32)) -> bool {
        valid_instant(t.0 as int, t.1 as int)
    }

    fn now(&self) -> (r: Timestamp) {
        Wall::current()
    }
}

/// Marks `std::time::Instant` as a type the verified code may carry.
#[verifier::external_type_specification]
#[verifier::external_body]
pub struct ExStdInstant(std::time::Instant);

/// The monotonic clock's current reading (`std::time::Instant::now`).
#[verifier::external_body]
fn monotonic_now() -> std::time::Instant {
    std::time::Instant::now()
}

/// Whole seconds and nanosecond fraction elapsed since `anchor`
/// (`Instant::elapsed`, then `Duration::as_secs` and `subsec_nanos`). It
/// depends on the time; the fraction is below one second, as `Duration`
/// documents.
#[verifier::external_body]
fn elapsed_since(anchor: &std::time::Instant) -> (r: (u64, u32))
    ensures
        r.1 < NANOS_PER_SEC,
{
    let d = anchor.elapsed();
    (d.as_secs(), d.subsec_nanos())
}

/// Seconds in the largest span that `chrono`'s `TimeDelta` holds.
pub const TIME_DELTA_MAX_SECS: u64 = 9223372036854775;

/// Nanosecond fraction of the largest span that `chrono`'s `TimeDelta` holds.
pub const TIME_DELTA_MAX_NANOS: u32 = 807000000;

/// The instant a non-negative span of `secs` seconds and `nanos`
/// nanoseconds (`nanos` below one second) after `t`, as `chrono` adds a span
/// to a date-time: from a leap second, a span that stays within it only
/// grows the fraction; otherwise the leap second counts as the second
/// before it.
pub open spec fn later_by(t: (i64, u32), secs: int, nanos: int) -> (int, int) {
    if t.1 >= NANOS_PER_SEC && !(secs > 0 || (nanos > 0 && t.1 + nanos >= 2 * NANOS_PER_SEC)) {
        (t.0 as int, t.1 + nanos)
    } else {
        let frac = if t.1 >= NANOS_PER_SEC {
            t.1 - NANOS_PER_SEC
        } else {
            t.1 as int
        };
        (t.0 + secs + (frac + nanos) / (NANOS_PER_SEC as int), (frac + nanos) % (NANOS_PER_SEC as int))
    }
}

/// `r` is `anchor` moved on by `secs` seconds and `nanos` nanoseconds (see
/// [`later_by`]). A span beyond what `chrono`'s `TimeDelta` holds counts as
/// none; a sum beyond the last representable instant leaves the anchor
/// unchanged.
pub open spec fn moved_on(anchor: Timestamp, secs: u64, nanos: u32, r: Timestamp) -> bool {
    let fits = secs < TIME_DELTA_MAX_SECS || (secs == TIME_DELTA_MAX_SECS && nanos
        <= TIME_DELTA_MAX_NANOS);
    let sum = later_by(anchor@, secs as int, nanos as int);
    if fits && valid_instant(sum.0, sum.1) {
        r@ == (sum.0 as i64, sum.1 as u32)
    } else {
        r == anchor
    }
}

/// The view of `anchor` moved on by `secs` seconds and `nanos` nanoseconds
/// (see [`moved_on`]).
pub open spec fn moved_on_view(anchor: (i64, u32), secs: u64, nanos: u32) -> (i64, u32) {
    let fits = secs < TIME_DELTA_MAX_SECS || (secs == TIME_DELTA_MAX_SECS && nanos
        <= TIME_DELTA_MAX_NANOS);
    let sum = later_by(anchor, secs as int, nanos as int);
    if fits && valid_instant(sum.0, sum.1) {
        (sum.0 as i64, sum.1 as u32)
    } else {
        anchor
    }
}

/// A clock anchored at its creation: it reports the wall-clock instant of
/// its creation plus the monotonic time elapsed since, unaffected by later
/// adjustments of the wall clock.
#[derive(Debug)]
pub struct Monotonic {
    anchor_wall: Timestamp,
    anchor_mono: std::time::Instant,
}

impl Monotonic {
    /// Captures the wall clock and the monotonic clock now.
    pub fn new() -> Self {
        Monotonic { anchor_wall: Wall::current(), anchor_mono: monotonic_now() }
    }

    /// The wall-clock instant at which the clock was created.
    pub closed spec fn anchor_instant(self) -> Timestamp {
        self.anchor_wall
    }

    /// The wall-clock instant at which the clock was created.
    pub fn anchor(&self) -> (r: Timestamp)
        ensures
            r == self.anchor_instant(),
    {
        self.anchor_wall
    }

    /// The anchor moved on by `secs` seconds and `nanos` nanoseconds (see
    /// [`moved_on`]). A span beyond what `chrono`'s `TimeDelta` holds counts
    /// as none; a sum beyond the last representable instant leaves the
    /// anchor unchanged.
    pub fn advanced(anchor: Timestamp, secs: u64, nanos: u32) -> (r: Timestamp)
        requires
            nanos < NANOS_PER_SEC,
        ensures
            moved_on(anchor, secs, nanos, r),
            valid_instant(r@.0 as int, r@.1 as int),
    {
        let t_secs = anchor.timestamp();
        let t_nanos = anchor.timestamp_subsec_nanos();
        if !(secs < TIME_DELTA_MAX_SECS || (secs == TIME_DELTA_MAX_SECS && nanos
            <= TIME_DELTA_MAX_NANOS)) {
            return anchor;
        }
        let (s, n): (i128, i128) = if t_nanos >= NANOS_PER_SEC && !(secs > 0 || (nanos > 0 && t_nanos
            + nanos >= 2 * NANOS_PER_SEC)) {
            (t_secs as i128, (t_nanos + nanos) as i128)
        } else {
            let frac: i128 = if t_nanos >= NANOS_PER_SEC {
                (t_nanos - NANOS_PER_SEC) as i128
            } else {
                t_nanos as i128
            };
            let total = frac + nanos as i128;
            (
                t_secs as i128 + secs as i128 + total / (NANOS_PER_SEC as i128),
                total % (NANOS_PER_SEC as i128),
            )
        };
        if s < i64::MIN as i128 || s > i64::MAX as i128 || n < 0 || n > u32::MAX as i128 {
            return anchor;
        }
        match Timestamp::from_timestamp(s as i64, n as u32) {
            Some(t) => t,
            None => anchor,
        }
    }
}

impl Monotonic {
    /// The anchor moved on by the monotonic time elapsed since the clock's
    /// creation (see [`advanced`](Self::advanced)).
    pub fn reading(&self) -> (r: Timestamp)
        ensures
            exists|secs: u64, nanos: u32|
                nanos < NANOS_PER_SEC && #[trigger] moved_on(self.anchor_instant(), secs, nanos, r),
            valid_instant(r@.0 as int, r@.1 as int),
    {
        let (secs, nanos) = elapsed_since(&self.anchor_mono);
        let r = Monotonic::advanced(self.anchor_wall, secs, nanos);
        assert(moved_on(self.anchor_instant(), secs, nanos, r));
        r
    }
}

impl Clock for Monotonic {
    /// The anchor moved on by some span of less than a whole second past a
    /// number of seconds: what the monotonic clock measured, whatever the
    /// wall clock did after the anchor was taken.
    open spec fn admits(&self, t: (i64, u32)) -> bool {
        exists|secs: u64, nanos: u32|
            nanos < NANOS_PER_SEC && #[trigger] moved_on_view(self.anchor_instant()@, secs, nanos) == t
    }

    fn now(&self) -> (r: Timestamp) {
        let r = self.reading();
        proof {
            let (secs, nanos) = choose|secs: u64, nanos: u32|
                nanos < NANOS_PER_SEC && #[trigger] moved_on(self.anchor_instant(), secs, nanos, r);
            assert(moved_on_view(self.anchor_instant()@, secs, nanos) == r@);
        }
        r
    }
}

/// A clock that always reports the same instant.
#[derive(Debug, Clone, Copy)]
pub struct Fixed {
    instant: Timestamp,
}

impl Fixed {
    /// Pins the clock at `instant`.
    pub fn new(instant: Timestamp) -> (r: Self)
        ensures
            r.reading() == instant,
    {
        Fixed { instant }
    }

    /// The instant the clock reports.
    pub closed spec fn reading(self) -> Timestamp {
        self.instant
    }

    /// The instant the clock reports.
    pub fn instant(&self) -> (r: Timestamp)
        ensures
            r == self.reading(),
    {
        self.instant
    }
}

impl Clock for Fixed {
    /// A fixed clock reports only its pinned instant.
    open spec fn admits(&self, t: (i64, u32)) -> bool {
        t == self.reading()@
    }

    fn now(&self) -> (r: Timestamp)
        ensures
            r == self.reading(),
    {
        proof {
            use_type_invariant(&self.instant);
        }
        self.instant
    }
}

} // verus!
