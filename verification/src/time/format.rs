//! Strftime rendering with the moreutils `ts` fractional-second extensions.
//!
//! moreutils `ts` adds two tokens that `chrono` does not implement: `%.S`
//! (seconds with a six-digit microsecond fraction) and `%.s` (Unix epoch
//! seconds with the same fraction). The format string is split at these
//! tokens; the fragments between them are rendered by `chrono`, and the
//! fractional digits are spliced in at each token.

use vstd::prelude::*;
use crate::error::Error;
use crate::text::{
    chars_of, decimal_int, decimal_nat, push_char, push_decimal_i64, push_zero_padded, string_of,
    zero_padded,
};
use crate::time::instant::Timestamp;
use crate::time::tz::{rendered_as, rule_of, rule_render, TimezoneSource, ZoneRule};

verus! {

/// The moreutils `ts` default format.
pub const DEFAULT_FORMAT: &'static str = "%b %d %H:%M:%S";

/// Digits of the fraction that `%.S` and `%.s` render (microseconds).
pub const DEFAULT_FRACTIONAL_DIGITS: usize = 6;

/// Whether a fractional token (`%.S` or `%.s`) starts at position `i`.
pub open spec fn frac_token_at(s: Seq<char>, i: int) -> bool {
    &&& 0 <= i
    &&& i + 3 <= s.len()
    &&& s[i] == '%'
    &&& s[i + 1] == '.'
    &&& (s[i + 2] == 'S' || s[i + 2] == 's')
}

/// The position of the first fractional token at or after `from`.
pub open spec fn next_frac_token(s: Seq<char>, from: int) -> Option<int>
    decreases s.len() - from,
{
    if from < 0 || from + 3 > s.len() {
        None
    } else if frac_token_at(s, from) {
        Some(from)
    } else {
        next_frac_token(s, from + 1)
    }
}

/// A fractional token found from `from` on starts there or later.
pub proof fn lemma_next_frac_token(s: Seq<char>, from: int)
    ensures
        next_frac_token(s, from) matches Some(p) ==> from <= p && frac_token_at(s, p),
    decreases s.len() - from,
{
    if from >= 0 && from + 3 <= s.len() && !frac_token_at(s, from) {
        lemma_next_frac_token(s, from + 1);
    }
}

/// The six microsecond digits of an instant's fraction.
pub open spec fn micros_text(t: (i64, u32)) -> Seq<char> {
    zero_padded(decimal_nat((t.1 / 1000) as nat), DEFAULT_FRACTIONAL_DIGITS as nat)
}

/// What a fractional token renders: for `%.S` the rendered `%S` seconds, a
/// dot and the microseconds; for `%.s` the epoch seconds, a dot and the
/// microseconds.
pub open spec fn token_text(big: bool, rule: ZoneRule, t: (i64, u32)) -> Option<Seq<char>> {
    if big {
        match rule_render(rule, t, seq!['%', 'S']) {
            Some(secs) => Some(secs + seq!['.'] + micros_text(t)),
            None => None,
        }
    } else {
        Some(decimal_int(t.0 as int) + seq!['.'] + micros_text(t))
    }
}

/// Concatenation of two optional texts (`None` if either is).
pub open spec fn join(a: Option<Seq<char>>, b: Option<Seq<char>>) -> Option<Seq<char>> {
    match (a, b) {
        (Some(x), Some(y)) => Some(x + y),
        _ => None,
    }
}

/// The rendering of the format `s` from position `from` on: the text up to
/// the next fractional token is rendered by `chrono` (only where it is not
/// empty), the token is expanded, and the rest follows the same way; the
/// text after the last token is rendered by `chrono` even when empty.
pub open spec fn expand_from(s: Seq<char>, from: int, rule: ZoneRule, t: (i64, u32)) -> Option<
    Seq<char>,
>
    decreases s.len() - from,
{
    if from < 0 || from > s.len() {
        None
    } else {
        match next_frac_token(s, from) {
            None => rule_render(rule, t, s.subrange(from, s.len() as int)),
            Some(pos) => {
                proof {
                    lemma_next_frac_token(s, from);
                }
                let head = if pos > from {
                    rule_render(rule, t, s.subrange(from, pos))
                } else {
                    Some(Seq::empty())
                };
                join(join(head, token_text(s[pos + 2] == 'S', rule, t)), expand_from(s, pos + 3, rule, t))
            },
        }
    }
}

/// The rendering of the whole format `s` for the instant `t` under `rule`.
pub open spec fn format_text(s: Seq<char>, rule: ZoneRule, t: (i64, u32)) -> Option<Seq<char>> {
    expand_from(s, 0, rule, t)
}

/// A format without fractional tokens is rendered whole by the underlying
/// renderer.
pub proof fn law_tokenless_format_rendered_whole(s: Seq<char>, rule: ZoneRule, t: (i64, u32))
    requires
        next_frac_token(s, 0) is None,
    ensures
        format_text(s, rule, t) == rule_render(rule, t, s),
{
    assert(s.subrange(0, s.len() as int) =~= s);
}

proof fn lemma_no_token_from(a: Seq<char>, from: int, p: int)
    requires
        0 <= from <= p,
        next_frac_token(a, from) is None,
    ensures
        !frac_token_at(a, p),
    decreases p - from,
{
    if from + 3 <= a.len() && from < p {
        lemma_no_token_from(a, from + 1, p);
    }
}

/// In `a + tok + b`, where `a` holds no fractional token and `tok` is one,
/// the first token from any position within `a` is `tok`.
proof fn lemma_first_token_after_plain(a: Seq<char>, tok: Seq<char>, b: Seq<char>, from: int)
    requires
        next_frac_token(a, 0) is None,
        frac_token_at(tok, 0),
        tok.len() == 3,
        0 <= from <= a.len(),
    ensures
        next_frac_token(a + tok + b, from) == Some(a.len() as int),
    decreases a.len() - from,
{
    let s = a + tok + b;
    if from < a.len() {
        lemma_no_token_from(a, 0, from);
        if from + 3 <= a.len() {
            assert(s[from] == a[from] && s[from + 1] == a[from + 1] && s[from + 2] == a[from + 2]);
        } else if from + 2 == a.len() {
            assert(s[from + 2] == tok[0]);
        } else {
            assert(s[from + 1] == tok[0]);
        }
        lemma_first_token_after_plain(a, tok, b, from + 1);
    } else {
        assert(s[from] == tok[0] && s[from + 1] == tok[1] && s[from + 2] == tok[2]);
    }
}

/// Tokens in `p + b` from position `p.len() + k` on are those of `b` from
/// `k` on, moved by `p.len()`.
proof fn lemma_token_shift(p: Seq<char>, b: Seq<char>, k: int)
    requires
        0 <= k <= b.len(),
    ensures
        next_frac_token(p + b, p.len() + k) == match next_frac_token(b, k) {
            Some(q) => Some(q + p.len()),
            None => None::<int>,
        },
    decreases b.len() - k,
{
    let s = p + b;
    let at = p.len() + k;
    if k + 3 <= b.len() {
        assert(s[at] == b[k] && s[at + 1] == b[k + 1] && s[at + 2] == b[k + 2]);
        if !frac_token_at(b, k) {
            lemma_token_shift(p, b, k + 1);
        }
    }
}

/// Rendering `p + b` from position `p.len() + k` on is rendering `b` from
/// `k` on.
proof fn lemma_expand_shift(p: Seq<char>, b: Seq<char>, k: int, rule: ZoneRule, t: (i64, u32))
    requires
        0 <= k <= b.len(),
    ensures
        expand_from(p + b, p.len() + k, rule, t) == expand_from(b, k, rule, t),
    decreases b.len() - k,
{
    let s = p + b;
    let at = p.len() + k;
    lemma_token_shift(p, b, k);
    lemma_next_frac_token(b, k);
    match next_frac_token(b, k) {
        None => {
            assert(s.subrange(at, s.len() as int) =~= b.subrange(k, b.len() as int));
        },
        Some(q) => {
            assert(s.subrange(at, q + p.len()) =~= b.subrange(k, q));
            assert(s[q + p.len() + 2] == b[q + 2]);
            lemma_expand_shift(p, b, q + 3, rule, t);
        },
    }
}

/// A format made of a token-free part `a`, a fractional token and the rest
/// `b` renders as `a` rendered whole (nothing where `a` is empty), the
/// token's text (`%.S`: the `%S` seconds, a dot and six microsecond digits;
/// `%.s`: the epoch seconds, a dot and the same digits) and `b` rendered
/// the same way.
pub proof fn law_fractional_token_splice(
    a: Seq<char>,
    big: bool,
    b: Seq<char>,
    rule: ZoneRule,
    t: (i64, u32),
)
    requires
        next_frac_token(a, 0) is None,
    ensures
        format_text(a + seq!['%', '.', if big { 'S' } else { 's' }] + b, rule, t) == join(
            join(
                if a.len() > 0 {
                    rule_render(rule, t, a)
                } else {
                    Some(Seq::empty())
                },
                token_text(big, rule, t),
            ),
            format_text(b, rule, t),
        ),
{
    let tok = seq!['%', '.', if big { 'S' } else { 's' }];
    let s = a + tok + b;
    lemma_first_token_after_plain(a, tok, b, 0);
    assert(s.subrange(0, a.len() as int) =~= a);
    assert(s[a.len() as int + 2] == tok[2]);
    assert(s =~= (a + tok) + b);
    lemma_expand_shift(a + tok, b, 0, rule, t);
}

proof fn lemma_expand_same_rendering(s: Seq<char>, from: int, r1: ZoneRule, r2: ZoneRule, t: (i64, u32))
    requires
        forall|f: Seq<char>| #[trigger] rule_render(r1, t, f) == rule_render(r2, t, f),
    ensures
        expand_from(s, from, r1, t) == expand_from(s, from, r2, t),
    decreases s.len() - from,
{
    if 0 <= from <= s.len() {
        lemma_next_frac_token(s, from);
        match next_frac_token(s, from) {
            None => {
                assert(rule_render(r1, t, s.subrange(from, s.len() as int)) == rule_render(
                    r2,
                    t,
                    s.subrange(from, s.len() as int),
                ));
            },
            Some(pos) => {
                assert(rule_render(r1, t, s.subrange(from, pos)) == rule_render(r2, t, s.subrange(from, pos)));
                assert(rule_render(r1, t, seq!['%', 'S']) == rule_render(r2, t, seq!['%', 'S']));
                lemma_expand_same_rendering(s, pos + 3, r1, r2, t);
            },
        }
    }
}

/// For UTC or a named zone, every rule the source stands for renders alike,
/// so every call renders a format the same way; only the machine's local
/// time leaves the offset to each call.
pub proof fn law_rendering_fixed_unless_local(
    tz: TimezoneSource,
    r1: ZoneRule,
    r2: ZoneRule,
    s: Seq<char>,
    t: (i64, u32),
)
    requires
        !(tz is Local),
        rule_of(tz, r1),
        rule_of(tz, r2),
    ensures
        format_text(s, r1, t) == format_text(s, r2, t),
{
    assert forall|f: Seq<char>| #[trigger] rule_render(r1, t, f) == rule_render(r2, t, f) by {}
    lemma_expand_same_rendering(s, 0, r1, r2, t);
}

/// `%.s` shows the epoch seconds and microseconds whatever the timezone.
pub proof fn law_epoch_token_zone_independent(r1: ZoneRule, r2: ZoneRule, t: (i64, u32))
    ensures
        token_text(false, r1, t) == token_text(false, r2, t),
        token_text(false, r1, t) == Some(decimal_int(t.0 as int) + seq!['.'] + micros_text(t)),
{
}

/// The position of the first fractional token in `chars` at or after `from`.
fn find_frac_token(chars: &Vec<char>, from: usize) -> (r: Option<usize>)
    requires
        from <= chars.len(),
    ensures
        r matches Some(p) ==> next_frac_token(chars@, from as int) == Some(p as int),
        r is None ==> next_frac_token(chars@, from as int) is None,
{
    let n = chars.len();
    let mut i = from;
    while n - i >= 3
        invariant
            from <= i <= n,
            n == chars.len(),
            next_frac_token(chars@, from as int) == next_frac_token(chars@, i as int),
        decreases n - i,
    {
        if chars[i] == '%' && chars[i + 1] == '.' && (chars[i + 2] == 'S' || chars[i + 2] == 's') {
            return Some(i);
        }
        i = i + 1;
    }
    None
}

/// Renders `now` through the strftime format `spec` under `rule`, expanding
/// the `%.S` and `%.s` tokens; gives `Error::InvalidFormat` carrying `spec`
/// where a fragment is rejected.
pub fn format_with_rule(spec: &str, now: Timestamp, rule: &ZoneRule) -> (r: Result<String, Error>)
    requires
        rule.wf(),
    ensures
        rendered_as(r, format_text(spec@, *rule, now@), spec@),
{
    let chars = chars_of(spec);
    let n = chars.len();
    let ghost s = spec@;
    let secs = now.timestamp();
    let nanos = now.timestamp_subsec_nanos();

    let mut frac_seconds = String::new();
    push_zero_padded(&mut frac_seconds, (nanos / 1000) as u64, DEFAULT_FRACTIONAL_DIGITS);
    let mut frac_epoch = String::new();
    push_decimal_i64(&mut frac_epoch, secs);
    push_char(&mut frac_epoch, '.');
    frac_epoch.append(frac_seconds.as_str());

    let mut out = String::new();
    let mut from: usize = 0;
    loop
        invariant
            from <= n,
            n == chars.len(),
            chars@ == s,
            s == spec@,
            rule.wf(),
            (secs, nanos) == now@,
            frac_seconds@ == micros_text(now@),
            frac_epoch@ == decimal_int(secs as int) + seq!['.'] + micros_text(now@),
            format_text(s, *rule, now@) == join(Some(out@), expand_from(s, from as int, *rule, now@)),
        decreases n - from,
    {
        proof {
            lemma_next_frac_token(s, from as int);
        }
        match find_frac_token(&chars, from) {
            None => {
                let rest = string_of(&chars, from, n);
                match rule.render(now, rest.as_str()) {
                    Ok(text) => {
                        out.append(text.as_str());
                        return Ok(out);
                    },
                    Err(_) => {
                        return Err(Error::InvalidFormat(spec.to_owned()));
                    },
                }
            },
            Some(pos) => {
                let ghost before = out@;
                if pos > from {
                    let head = string_of(&chars, from, pos);
                    match rule.render(now, head.as_str()) {
                        Ok(text) => out.append(text.as_str()),
                        Err(_) => {
                            return Err(Error::InvalidFormat(spec.to_owned()));
                        },
                    }
                }
                let ghost after_head = out@;
                proof {
                    reveal_strlit("%S");
                    assert("%S"@ =~= seq!['%', 'S']);
                }
                if chars[pos + 2] == 'S' {
                    match rule.render(now, "%S") {
                        Ok(text) => {
                            out.append(text.as_str());
                            push_char(&mut out, '.');
                            out.append(frac_seconds.as_str());
                            assert(out@.subrange(after_head.len() as int, out@.len() as int) =~= text@ + seq!['.'] + micros_text(now@));
                        },
                        Err(_) => {
                            assert(token_text(true, *rule, now@) is None);
                            return Err(Error::InvalidFormat(spec.to_owned()));
                        },
                    }
                } else {
                    out.append(frac_epoch.as_str());
                    assert(out@.subrange(after_head.len() as int, out@.len() as int) =~= frac_epoch@);
                }
                proof {
                    let head_text = if pos > from {
                        rule_render(*rule, now@, s.subrange(from as int, pos as int))
                    } else {
                        Some(Seq::empty())
                    };
                    assert(head_text == Some(after_head.subrange(before.len() as int, after_head.len() as int)));
                    assert(token_text(s[pos + 2] == 'S', *rule, now@) == Some(out@.subrange(after_head.len() as int, out@.len() as int)));
                    assert(out@ =~= before + after_head.subrange(before.len() as int, after_head.len() as int) + out@.subrange(after_head.len() as int, out@.len() as int));
                }
                from = pos + 3;
            },
        }
    }
}

/// Renders `now` in the zone `tz` through the strftime format `spec`,
/// expanding the `%.S` and `%.s` tokens; gives `Error::InvalidFormat`
/// carrying `spec` where a fragment is rejected. For the machine's local
/// time, one local offset (the one in force at `now`) serves the whole
/// rendering.
pub fn format_with(spec: &str, now: Timestamp, tz: &TimezoneSource) -> (r: Result<String, Error>)
    ensures
        exists|rule: ZoneRule|
            #[trigger] rule_of(*tz, rule) && rendered_as(r, format_text(spec@, rule, now@), spec@),
{
    let rule = tz.rule_at(now);
    let r = format_with_rule(spec, now, &rule);
    assert(rule_of(*tz, rule) && rendered_as(r, format_text(spec@, rule, now@), spec@));
    r
}

/// Renders `now` in the zone `tz` through the moreutils default format.
pub fn format_default(now: Timestamp, tz: &TimezoneSource) -> (r: Result<String, Error>)
    ensures
        exists|rule: ZoneRule|
            #[trigger] rule_of(*tz, rule) && rendered_as(
                r,
                format_text(DEFAULT_FORMAT@, rule, now@),
                DEFAULT_FORMAT@,
            ),
{
    format_with(DEFAULT_FORMAT, now, tz)
}

} // verus!
