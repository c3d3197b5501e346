//! UTC instants, held as whole seconds since the Unix epoch plus a
//! nanosecond fraction, over exactly the range of values a UTC date-time can
//! take (leap seconds included, as a fraction of one billion or more during
//! the 59th second of a minute).

use vstd::prelude::*;

verus! {

/// The earliest representable second: January 1 of year -262143, 00:00:00 UTC.
pub const MIN_TIMESTAMP_SECS: i64 = -8334601228800;

/// The latest representable second: December 31 of year 262142, 23:59:59 UTC.
pub const MAX_TIMESTAMP_SECS: i64 = 8210266876799;

/// Nanoseconds in one second.
pub const NANOS_PER_SEC: u32 = 1_000_000_000;

/// Whether `(secs, nanos)` denotes a UTC instant: the second lies in the
/// supported range, the fraction is below two seconds, and a fraction of one
/// second or more (a leap second) occurs only in the last second of a minute.
pub open spec fn valid_instant(secs: int, nanos: int) -> bool {
    &&& MIN_TIMESTAMP_SECS <= secs <= MAX_TIMESTAMP_SECS
    &&& 0 <= nanos < 2 * NANOS_PER_SEC
    &&& nanos >= NANOS_PER_SEC ==> secs % 60 == 59
}

/// A UTC instant.
#[derive(Debug, Clone, Copy, PartialEq, Eq, Structural)]
pub struct Timestamp {
    secs: i64,
    nanos: u32,
}

impl View for Timestamp {
    type V = (i64, u32);

    closed spec fn view(&self) -> (i64, u32) {
        (self.secs, self.nanos)
    }
}

/// Seconds into the UTC day.
pub open spec fn second_of_day(secs: int) -> int {
    secs % 86400
}

/// Signed nanoseconds from instant `b` to instant `a`, where a leap second
/// still to be counted between the two contributes one extra second.
pub open spec fn nanos_between(a: (i64, u32), b: (i64, u32)) -> int {
    let adjust: int = if second_of_day(a.0 as int) > second_of_day(b.0 as int) && b.1
        >= NANOS_PER_SEC {
        1
    } else if second_of_day(a.0 as int) < second_of_day(b.0 as int) && a.1 >= NANOS_PER_SEC {
        -1
    } else {
        0
    };
    (a.0 - b.0 + adjust) * NANOS_PER_SEC + (a.1 - b.1)
}

/// Whole seconds in a signed nanosecond count, truncated toward zero.
pub open spec fn whole_seconds(nanos: int) -> int {
    if nanos >= 0 {
        nanos / (NANOS_PER_SEC as int)
    } else {
        -((-nanos) / (NANOS_PER_SEC as int))
    }
}

impl Timestamp {
    /// The instant with the given epoch second and nanosecond fraction, if it
    /// is one (see [`valid_instant`]).
    pub fn from_timestamp(secs: i64, nanos: u32) -> (r: Option<Timestamp>)
        ensures
            r is Some <==> valid_instant(secs as int, nanos as int),
            r matches Some(t) ==> t@ == (secs, nanos),
    {
        if secs < MIN_TIMESTAMP_SECS || secs > MAX_TIMESTAMP_SECS || nanos >= 2 * NANOS_PER_SEC {
            return None;
        }
        if nanos >= NANOS_PER_SEC {
            // MIN_TIMESTAMP_SECS is a whole number of days, so the offset from
            // it has the same remainder modulo 60 as `secs`.
            let offset: u64 = (secs - MIN_TIMESTAMP_SECS) as u64;
            assert(offset as int % 60 == secs as int % 60) by {
                assert(MIN_TIMESTAMP_SECS as int == -138910020480 * 60);
                vstd::arithmetic::div_mod::lemma_mod_multiples_vanish(138910020480, secs as int, 60);
            }
            if offset % 60 != 59 {
                return None;
            }
        }
        Some(Timestamp { secs, nanos })
    }

    /// The Unix epoch, 1970-01-01 00:00:00 UTC.
    pub fn epoch() -> (r: Timestamp)
        ensures
            r@ == (0i64, 0u32),
    {
        Timestamp { secs: 0, nanos: 0 }
    }

    /// Whole seconds since the Unix epoch.
    pub fn timestamp(&self) -> (r: i64)
        ensures
            r == self@.0,
            valid_instant(self@.0 as int, self@.1 as int),
    {
        proof {
            use_type_invariant(self);
        }
        self.secs
    }

    /// The nanosecond fraction (one billion or more during a leap second).
    pub fn timestamp_subsec_nanos(&self) -> (r: u32)
        ensures
            r == self@.1,
            valid_instant(self@.0 as int, self@.1 as int),
    {
        proof {
            use_type_invariant(self);
        }
        self.nanos
    }

    /// Seconds into the UTC day of this instant.
    pub fn second_of_day(&self) -> (r: u32)
        ensures
            r == second_of_day(self@.0 as int),
            r < 86400,
    {
        proof {
            use_type_invariant(self);
        }
        // MIN_TIMESTAMP_SECS is a whole number of days before the epoch.
        let offset: u64 = (self.secs - MIN_TIMESTAMP_SECS) as u64;
        proof {
            assert(MIN_TIMESTAMP_SECS as int == -96465292 * 86400);
            vstd::arithmetic::div_mod::lemma_mod_multiples_vanish(96465292, self.secs as int, 86400);
        }
        (offset % 86400) as u32
    }

    /// Signed nanoseconds from `earlier` to this instant, counting a leap
    /// second that lies between them (what `chrono`'s
    /// `DateTime::signed_duration_since` measures).
    pub fn signed_nanos_since(&self, earlier: &Timestamp) -> (r: i128)
        ensures
            r == nanos_between(self@, earlier@),
    {
        proof {
            use_type_invariant(self);
            use_type_invariant(earlier);
        }
        let a_day = self.second_of_day();
        let b_day = earlier.second_of_day();
        let adjust: i128 = if a_day > b_day && earlier.nanos >= NANOS_PER_SEC {
            1
        } else if a_day < b_day && self.nanos >= NANOS_PER_SEC {
            -1
        } else {
            0
        };
        ((self.secs as i128) - (earlier.secs as i128) + adjust) * (NANOS_PER_SEC as i128) + ((
        self.nanos as i128) - (earlier.nanos as i128))
    }

    /// The type invariant: every `Timestamp` denotes a UTC instant.
    #[verifier::type_invariant]
    pub open spec fn is_valid(self) -> bool {
        valid_instant(self@.0 as int, self@.1 as int)
    }
}

} // verus!
