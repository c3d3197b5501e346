//! The calls into `chrono` that read date-time text. What each parser
//! accepts and yields takes pages to state and depends on the text alone; it
//! is named here, as the UTC instant `(seconds, nanoseconds)` that the text
//! denotes, or `None` where the parser rejects it.

use vstd::prelude::*;

verus! {

/// The UTC instant of an RFC 3339 date-time (`DateTime::parse_from_rfc3339`
/// converted to UTC).
pub uninterp spec fn rfc3339_instant(text: Seq<char>) -> Option<(i64, u32)>;

/// The epoch second of midnight UTC on a `%Y-%m-%d` date
/// (`NaiveDate::parse_from_str`).
pub uninterp spec fn date_midnight_secs(text: Seq<char>) -> Option<i64>;

/// The UTC instant of a `%Y-%m-%d %H:%M:%S` date-time read as UTC
/// (`NaiveDateTime::parse_from_str`).
pub uninterp spec fn date_time_instant(text: Seq<char>) -> Option<(i64, u32)>;

/// Reads an RFC 3339 date-time with `chrono::DateTime::parse_from_rfc3339`
/// and gives its UTC epoch second and nanosecond fraction; named by
/// [`rfc3339_instant`].
#[verifier::external_body]
pub(crate) fn parse_rfc3339(text: &str) -> (r: Option<(i64, u32)>)
    ensures
        r == rfc3339_instant(text@),
{
    match chrono::DateTime::parse_from_rfc3339(text) {
        Ok(dt) => {
            let utc = dt.with_timezone(&chrono::Utc);
            Some((utc.timestamp(), utc.timestamp_subsec_nanos()))
        },
        Err(_) => None,
    }
}

/// Reads a `%Y-%m-%d` date with `chrono::NaiveDate::parse_from_str` and
/// gives the epoch second of its midnight UTC (`and_hms_opt(0, 0, 0)`,
/// `and_utc`); named by [`date_midnight_secs`].
#[verifier::external_body]
pub(crate) fn parse_date_midnight(text: &str) -> (r: Option<i64>)
    ensures
        r == date_midnight_secs(text@),
{
    match chrono::NaiveDate::parse_from_str(text, "%Y-%m-%d") {
        Ok(date) => match date.and_hms_opt(0, 0, 0) {
            Some(naive) => Some(naive.and_utc().timestamp()),
            None => None,
        },
        Err(_) => None,
    }
}

/// Reads a `%Y-%m-%d %H:%M:%S` date-time with
/// `chrono::NaiveDateTime::parse_from_str`, taken as UTC (`and_utc`); named
/// by [`date_time_instant`].
#[verifier::external_body]
pub(crate) fn parse_date_time(text: &str) -> (r: Option<(i64, u32)>)
    ensures
        r == date_time_instant(text@),
{
    match chrono::NaiveDateTime::parse_from_str(text, "%Y-%m-%d %H:%M:%S") {
        Ok(naive) => {
            let utc = naive.and_utc();
            Some((utc.timestamp(), utc.timestamp_subsec_nanos()))
        },
        Err(_) => None,
    }
}

} // verus!
