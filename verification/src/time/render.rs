//! The calls into `chrono` and `chrono-tz` that render an instant through a
//! strftime format string and that resolve zone names and local offsets.
//!
//! What a strftime rendering produces takes pages to state, and depends on
//! the instant, the zone and the format string alone; it is named here
//! (`strftime_*`), and the verified code above it is proved against those
//! names. A format that `chrono` rejects yields `None`.

use vstd::prelude::*;
use crate::time::instant::valid_instant;
use chrono::Offset;

verus! {

/// What `chrono` renders for the UTC instant `(secs, nanos)` shown in UTC
/// through the format `fmt`, or `None` where it rejects the format.
pub uninterp spec fn strftime_utc(secs: i64, nanos: u32, fmt: Seq<char>) -> Option<Seq<char>>;

/// What `chrono` renders for the instant `(secs, nanos)` shown at the fixed
/// offset of `offset` seconds east of UTC through the format `fmt`, or
/// `None` where it rejects the format.
pub uninterp spec fn strftime_fixed(offset: i32, secs: i64, nanos: u32, fmt: Seq<char>) -> Option<
    Seq<char>,
>;

/// What `chrono` renders for the instant `(secs, nanos)` shown in the IANA
/// zone named `zone` (as `chrono-tz` defines it) through the format `fmt`,
/// or `None` where it rejects the format.
pub uninterp spec fn strftime_zone(zone: Seq<char>, secs: i64, nanos: u32, fmt: Seq<char>) -> Option<
    Seq<char>,
>;

/// Whether `chrono-tz` knows an IANA zone by exactly this name.
pub uninterp spec fn iana_zone_known(name: Seq<char>) -> bool;

/// The view of an optional string.
pub open spec fn opt_view(r: Option<String>) -> Option<Seq<char>> {
    match r {
        Some(s) => Some(s@),
        None => None,
    }
}

/// Renders an instant in UTC through `chrono`'s `DateTime<Utc>::format`,
/// written into a `String` with `DelayedFormat::write_to`. The result is
/// named by [`strftime_utc`].
#[verifier::external_body]
pub(crate) fn render_utc(secs: i64, nanos: u32, fmt: &str) -> (r: Option<String>)
    requires
        valid_instant(secs as int, nanos as int),
    ensures
        opt_view(r) == strftime_utc(secs, nanos, fmt@),
{
    let dt = chrono::DateTime::<chrono::Utc>::from_timestamp(secs, nanos)?;
    let mut out = String::new();
    match dt.format(fmt).write_to(&mut out) {
        Ok(()) => Some(out),
        Err(_) => None,
    }
}

/// Renders an instant at a fixed offset through `chrono`'s
/// `FixedOffset::east_opt`, `DateTime::with_timezone` and `format`. The
/// result is named by [`strftime_fixed`].
#[verifier::external_body]
pub(crate) fn render_fixed(offset: i32, secs: i64, nanos: u32, fmt: &str) -> (r: Option<String>)
    requires
        valid_instant(secs as int, nanos as int),
        -86400 < offset < 86400,
    ensures
        opt_view(r) == strftime_fixed(offset, secs, nanos, fmt@),
{
    let zone = chrono::FixedOffset::east_opt(offset)?;
    let dt = chrono::DateTime::<chrono::Utc>::from_timestamp(secs, nanos)?;
    let mut out = String::new();
    match dt.with_timezone(&zone).format(fmt).write_to(&mut out) {
        Ok(()) => Some(out),
        Err(_) => None,
    }
}

/// Renders an instant in a named IANA zone: parses the name into a
/// `chrono_tz::Tz` (`FromStr`), converts with `DateTime::with_timezone` and
/// formats. The result is named by [`strftime_zone`].
#[verifier::external_body]
pub(crate) fn render_zone(zone: &str, secs: i64, nanos: u32, fmt: &str) -> (r: Option<String>)
    requires
        valid_instant(secs as int, nanos as int),
        iana_zone_known(zone@),
    ensures
        opt_view(r) == strftime_zone(zone@, secs, nanos, fmt@),
{
    let tz = zone.parse::<chrono_tz::Tz>().ok()?;
    let dt = chrono::DateTime::<chrono::Utc>::from_timestamp(secs, nanos)?;
    let mut out = String::new();
    match dt.with_timezone(&tz).format(fmt).write_to(&mut out) {
        Ok(()) => Some(out),
        Err(_) => None,
    }
}

/// Whether `chrono-tz` parses `name` as a zone (`Tz::from_str`, an exact
/// lookup in its compiled zone table).
#[verifier::external_body]
pub(crate) fn zone_is_known(name: &str) -> (r: bool)
    ensures
        r == iana_zone_known(name@),
{
    name.parse::<chrono_tz::Tz>().is_ok()
}

/// The offset east of UTC, in seconds, that the machine's local time zone
/// has at the given instant (`DateTime::with_timezone(&Local)` then
/// `Offset::fix().local_minus_utc()`). It depends on the machine's zone
/// settings; only the range that `chrono`'s `FixedOffset` guarantees is
/// stated.
#[verifier::external_body]
pub(crate) fn local_offset_at(secs: i64, nanos: u32) -> (r: i32)
    requires
        valid_instant(secs as int, nanos as int),
    ensures
        -86400 < r < 86400,
{
    match chrono::DateTime::<chrono::Utc>::from_timestamp(secs, nanos) {
        Some(dt) => dt.with_timezone(&chrono::Local).offset().fix().local_minus_utc(),
        None => 0,
    }
}

} // verus!
