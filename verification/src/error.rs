//! The library's error type.

use vstd::prelude::*;

verus! {

/// Marks `std::io::Error` as a type the verified code may carry.
#[verifier::external_type_specification]
#[verifier::external_body]
pub struct ExIoError(std::io::Error);

/// Errors raised by the library.
#[non_exhaustive]
#[derive(Debug)]
pub enum Error {
    /// UTC rendering and a named IANA zone were both requested; carries the
    /// zone name.
    InvalidUtcWithNamedTz {
        /// The IANA name the caller supplied.
        tz: String,
    },
    /// The named IANA zone is unknown; carries the offending name.
    InvalidIanaName(String),
    /// The strftime format string is one that the renderer rejects; carries
    /// the offending format string.
    InvalidFormat(String),
    /// An underlying read or write failed.
    Io(std::io::Error),
}

/// The human-readable message of each error, as the CLI prints it after
/// `rusty-ts: `. The message of an IO error embeds the system's own text,
/// which is left unspecified here.
pub open spec fn error_message(e: Error, io_text: Seq<char>) -> Seq<char> {
    match e {
        Error::InvalidUtcWithNamedTz { tz } => "--utc and --tz=<name> are mutually exclusive; got --tz="@
            + tz@,
        Error::InvalidIanaName(name) => "unknown IANA timezone: "@ + name@,
        Error::InvalidFormat(fmt) => "invalid strftime format: "@ + fmt@,
        Error::Io(_) => "io error: "@ + io_text,
    }
}

/// The `Display` text of an IO error (`std::io::Error` as `Display`). It
/// embeds operating-system text; nothing is stated of it.
#[verifier::external_body]
fn io_error_text(e: &std::io::Error) -> String {
    e.to_string()
}

impl Error {
    /// The error's message (the text that `Display` shows).
    pub fn message(&self) -> (r: String)
        ensures
            exists|io_text: Seq<char>| r@ == error_message(*self, io_text),
            !(self is Io) ==> r@ == error_message(*self, Seq::empty()),
    {
        let (mut out, tail) = match self {
            Error::InvalidUtcWithNamedTz { tz } => (
                "--utc and --tz=<name> are mutually exclusive; got --tz=".to_owned(),
                tz.clone(),
            ),
            Error::InvalidIanaName(name) => ("unknown IANA timezone: ".to_owned(), name.clone()),
            Error::InvalidFormat(fmt) => ("invalid strftime format: ".to_owned(), fmt.clone()),
            Error::Io(e) => ("io error: ".to_owned(), io_error_text(e)),
        };
        out.append(tail.as_str());
        assert(out@ == error_message(*self, tail@));
        out
    }
}

impl From<std::io::Error> for Error {
    /// Wraps an IO error.
    fn from(e: std::io::Error) -> (r: Self) {
        Error::Io(e)
    }
}

impl vstd::std_specs::convert::FromSpecImpl<std::io::Error> for Error {
    open spec fn obeys_from_spec() -> bool {
        true
    }

    open spec fn from_spec(e: std::io::Error) -> Self {
        Error::Io(e)
    }
}

} // verus!
