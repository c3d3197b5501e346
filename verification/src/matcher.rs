//! Compiled regular expressions (`regex::Regex`) and the matches they find.
//!
//! Which spans a pattern matches in a haystack is named by
//! [`regex_find_all`]; beside the name stands what the `regex`
//! documentation promises of every match: its start is no later than its
//! end, its end lies within the haystack, and both fall on UTF-8 character
//! boundaries.

use vstd::prelude::*;
use vstd::utf8::is_char_boundary;

verus! {

/// Marks `regex::Regex` as a type the verified code may carry.
#[verifier::external_type_specification]
#[verifier::external_body]
pub struct ExRegex(regex::Regex);

/// Whether `regex` accepts `pattern` (`Regex::new` succeeds).
pub uninterp spec fn regex_compiles(pattern: Seq<char>) -> bool;

/// The byte spans `(start, end)` of the successive non-overlapping matches
/// that `Regex::find_iter` yields for `pattern` in `haystack`.
pub uninterp spec fn regex_find_all(pattern: Seq<char>, haystack: Seq<char>) -> Seq<(usize, usize)>;

/// Every span lies within the UTF-8 bytes of `haystack`, starts no later
/// than it ends, and starts and ends on character boundaries.
pub open spec fn spans_well_placed(spans: Seq<(usize, usize)>, haystack: Seq<char>) -> bool {
    forall|i: int|
        0 <= i < spans.len() ==> span_well_placed(#[trigger] spans[i], haystack)
}

/// The span lies within the UTF-8 bytes of `haystack`, starts no later than
/// it ends, and starts and ends on character boundaries.
pub open spec fn span_well_placed(span: (usize, usize), haystack: Seq<char>) -> bool {
    let bytes = vstd::utf8::encode_utf8(haystack);
    &&& span.0 <= span.1 <= bytes.len()
    &&& is_char_boundary(bytes, span.0 as int)
    &&& is_char_boundary(bytes, span.1 as int)
}

/// A regular expression together with the pattern it was compiled from.
/// Only [`compile`] makes one, so the two always agree.
#[derive(Debug)]
pub struct Pattern {
    source: String,
    re: regex::Regex,
}

impl View for Pattern {
    type V = Seq<char>;

    closed spec fn view(&self) -> Seq<char> {
        self.source@
    }
}

/// Compiles `pattern` with `regex::Regex::new`, keeping the pattern text
/// beside the compiled expression; `None` where `regex` rejects it.
#[verifier::external_body]
pub(crate) fn compile(pattern: &str) -> (r: Option<Pattern>)
    ensures
        r is Some <==> regex_compiles(pattern@),
        r matches Some(p) ==> p@ == pattern@,
{
    match regex::Regex::new(pattern) {
        Ok(re) => Some(Pattern { source: pattern.to_owned(), re }),
        Err(_) => None,
    }
}

/// The byte spans of the matches that `Regex::find_iter` yields, in order.
#[verifier::external_body]
pub(crate) fn find_all(pattern: &Pattern, haystack: &str) -> (r: Vec<(usize, usize)>)
    ensures
        r@ == regex_find_all(pattern@, haystack@),
        spans_well_placed(r@, haystack@),
{
    pattern.re.find_iter(haystack).map(|m| (m.start(), m.end())).collect()
}

/// The part of `s` between the byte offsets `from` and `to` (`&s[from..to]`).
#[verifier::external_body]
pub(crate) fn str_slice(s: &str, from: usize, to: usize) -> (r: &str)
    requires
        span_well_placed((from, to), s@),
    ensures
        vstd::utf8::encode_utf8(r@) == vstd::utf8::encode_utf8(s@).subrange(from as int, to as int),
{
    &s[from..to]
}

} // verus!
