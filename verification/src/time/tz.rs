//! Timezone-source resolution: the machine's local time, UTC, or a named
//! IANA zone, and the rendering of instants in each.

use vstd::prelude::*;
use crate::error::Error;
use crate::time::instant::Timestamp;
use crate::time::render::{
    iana_zone_known, local_offset_at, opt_view, render_fixed, render_utc, render_zone,
    strftime_fixed, strftime_utc, strftime_zone, zone_is_known,
};

verus! {

/// An IANA zone name that `chrono-tz` knows.
#[derive(Debug)]
pub struct IanaZone {
    name: String,
}

impl View for IanaZone {
    type V = Seq<char>;

    closed spec fn view(&self) -> Seq<char> {
        self.name@
    }
}

impl IanaZone {
    #[verifier::type_invariant]
    closed spec fn inv(self) -> bool {
        iana_zone_known(self.name@)
    }

    /// The zone of this name, if `chrono-tz` knows one.
    pub fn parse(name: &str) -> (r: Option<IanaZone>)
        ensures
            r is Some <==> iana_zone_known(name@),
            r matches Some(z) ==> z@ == name@,
    {
        if zone_is_known(name) {
            Some(IanaZone { name: name.to_owned() })
        } else {
            None
        }
    }

    /// The zone's IANA name.
    pub fn name(&self) -> (r: &str)
        ensures
            r@ == self@,
            iana_zone_known(self@),
    {
        proof {
            use_type_invariant(self);
        }
        self.name.as_str()
    }
}

impl Clone for IanaZone {
    fn clone(&self) -> (r: Self)
        ensures
            r@ == self@,
    {
        proof {
            use_type_invariant(self);
        }
        IanaZone { name: self.name.clone() }
    }
}

/// Resolved timezone source, chosen once and used for every rendering.
#[non_exhaustive]
#[derive(Debug)]
pub enum TimezoneSource {
    /// The machine's local time (as the `TZ` environment variable adjusts it).
    Local,
    /// UTC.
    Utc,
    /// A named IANA zone.
    Named(IanaZone),
}

impl Clone for TimezoneSource {
    fn clone(&self) -> (r: Self)
        ensures
            r == *self || (self matches TimezoneSource::Named(z) && r matches TimezoneSource::Named(
                z2,
            ) && z2@ == z@),
    {
        match self {
            TimezoneSource::Local => TimezoneSource::Local,
            TimezoneSource::Utc => TimezoneSource::Utc,
            TimezoneSource::Named(z) => TimezoneSource::Named(z.clone()),
        }
    }
}

/// How one rendering shows an instant: in UTC, at a fixed offset east of UTC
/// (in seconds), or in a named zone.
#[derive(Debug)]
pub enum ZoneRule {
    Utc,
    FixedOffset(i32),
    Iana(IanaZone),
}

/// What rendering the UTC instant `t` through `fmt` under `rule` gives, or
/// `None` where the format is rejected.
pub open spec fn rule_render(rule: ZoneRule, t: (i64, u32), fmt: Seq<char>) -> Option<Seq<char>> {
    match rule {
        ZoneRule::Utc => strftime_utc(t.0, t.1, fmt),
        ZoneRule::FixedOffset(offset) => strftime_fixed(offset, t.0, t.1, fmt),
        ZoneRule::Iana(zone) => strftime_zone(zone@, t.0, t.1, fmt),
    }
}

/// Whether `rule` is a way of showing instants that `source` stands for: UTC
/// for UTC, the same zone for a named zone, and some offset of less than a
/// day for the machine's local time.
pub open spec fn rule_of(source: TimezoneSource, rule: ZoneRule) -> bool {
    match source {
        TimezoneSource::Utc => rule is Utc,
        TimezoneSource::Named(zone) => rule matches ZoneRule::Iana(z) && z@ == zone@,
        TimezoneSource::Local => rule matches ZoneRule::FixedOffset(o) && -86400 < o < 86400,
    }
}

/// `r` is the rendered text `expected`, or, where there is none, the error
/// that names the rejected format `fmt`.
pub open spec fn rendered_as(r: Result<String, Error>, expected: Option<Seq<char>>, fmt: Seq<char>) -> bool {
    match expected {
        Some(text) => r matches Ok(s) && s@ == text,
        None => r matches Err(Error::InvalidFormat(f)) && f@ == fmt,
    }
}

impl ZoneRule {
    /// Whether the rule is one that can be rendered (an offset of less than a
    /// day).
    pub open spec fn wf(self) -> bool {
        self matches ZoneRule::FixedOffset(o) ==> -86400 < o < 86400
    }

    /// Renders `instant` through the strftime format `fmt`.
    pub fn render(&self, instant: Timestamp, fmt: &str) -> (r: Result<String, Error>)
        requires
            self.wf(),
        ensures
            rendered_as(r, rule_render(*self, instant@, fmt@), fmt@),
    {
        let secs = instant.timestamp();
        let nanos = instant.timestamp_subsec_nanos();
        let out = match self {
            ZoneRule::Utc => render_utc(secs, nanos, fmt),
            ZoneRule::FixedOffset(offset) => render_fixed(*offset, secs, nanos, fmt),
            ZoneRule::Iana(zone) => render_zone(zone.name(), secs, nanos, fmt),
        };
        match out {
            Some(s) => Ok(s),
            None => Err(Error::InvalidFormat(fmt.to_owned())),
        }
    }
}

impl TimezoneSource {
    /// The machine's local time.
    pub fn local() -> (r: Self)
        ensures
            r is Local,
    {
        TimezoneSource::Local
    }

    /// UTC.
    pub fn utc() -> (r: Self)
        ensures
            r is Utc,
    {
        TimezoneSource::Utc
    }

    /// The named IANA zone (for example `"America/New_York"`), or
    /// `Error::InvalidIanaName` carrying the name where `chrono-tz` does not
    /// know it.
    pub fn named(iana: &str) -> (r: Result<Self, Error>)
        ensures
            r is Ok <==> iana_zone_known(iana@),
            r matches Ok(source) ==> source matches TimezoneSource::Named(z) && z@ == iana@,
            r matches Err(e) ==> e matches Error::InvalidIanaName(n) && n@ == iana@,
    {
        match IanaZone::parse(iana) {
            Some(zone) => Ok(TimezoneSource::Named(zone)),
            None => Err(Error::InvalidIanaName(iana.to_owned())),
        }
    }

    /// How this source shows the given instant. For the machine's local time
    /// this reads the local offset in force at that instant.
    pub fn rule_at(&self, instant: Timestamp) -> (r: ZoneRule)
        ensures
            rule_of(*self, r),
            r.wf(),
    {
        match self {
            TimezoneSource::Local => {
                let secs = instant.timestamp();
                let nanos = instant.timestamp_subsec_nanos();
                ZoneRule::FixedOffset(local_offset_at(secs, nanos))
            },
            TimezoneSource::Utc => ZoneRule::Utc,
            TimezoneSource::Named(zone) => ZoneRule::Iana(zone.clone()),
        }
    }

    /// Renders `instant` in this zone through the strftime format `fmt`, or
    /// gives `Error::InvalidFormat` where the format is rejected.
    pub fn render(&self, instant: Timestamp, fmt: &str) -> (r: Result<String, Error>)
        ensures
            exists|rule: ZoneRule|
                #[trigger] rule_of(*self, rule) && rendered_as(r, rule_render(rule, instant@, fmt@), fmt@),
    {
        let rule = self.rule_at(instant);
        let r = rule.render(instant, fmt);
        assert(rule_of(*self, rule) && rendered_as(r, rule_render(rule, instant@, fmt@), fmt@));
        r
    }
}

} // verus!
