//! Compatibility-mode resolution.
//!
//! The mode of an invocation is resolved once, from (highest precedence
//! first): an explicit `--no-strict` / `--strict` flag, the
//! `RUSTY_TS_STRICT` environment variable (`1`, `true`, `yes` or `on` in any
//! case, surrounding whitespace ignored), and the program's invocation name
//! (`ts` in any case); otherwise Default.

use vstd::prelude::*;
use crate::text::{chars_of, string_of};

verus! {

/// The compatibility posture of an invocation.
#[non_exhaustive]
#[derive(Debug, Clone, Copy, PartialEq, Eq, Hash, Structural)]
pub enum CompatibilityMode {
    /// The extensions of this tool are active.
    Default,
    /// Behaviour of moreutils `ts`: extensions rejected, the full relative
    /// set recognised, `RUSTY_TS_FORMAT` ignored.
    Strict,
}

impl Default for CompatibilityMode {
    fn default() -> (r: Self)
        ensures
            r == CompatibilityMode::Default,
    {
        CompatibilityMode::Default
    }
}

/// An explicit choice made with a flag.
#[derive(Debug, Clone, Copy, PartialEq, Eq, Structural)]
pub enum ExplicitChoice {
    /// `--strict` or `--moreutils-compat`.
    Strict,
    /// `--no-strict` or `--no-moreutils-compat`.
    Default,
}

/// Whether `c` has the Unicode `White_Space` property (what
/// `char::is_whitespace` tests).
pub open spec fn is_white_space(c: char) -> bool {
    let u = c as u32;
    ||| 0x09 <= u <= 0x0d
    ||| u == 0x20
    ||| u == 0x85
    ||| u == 0xa0
    ||| u == 0x1680
    ||| 0x2000 <= u <= 0x200a
    ||| u == 0x2028
    ||| u == 0x2029
    ||| u == 0x202f
    ||| u == 0x205f
    ||| u == 0x3000
}

/// Index of the first character at or after `i` that is not white space.
pub open spec fn skip_space_forward(s: Seq<char>, i: int) -> int
    decreases s.len() - i,
{
    if 0 <= i < s.len() && is_white_space(s[i]) {
        skip_space_forward(s, i + 1)
    } else {
        i
    }
}

/// One past the index of the last character before `j` that is not white
/// space.
pub open spec fn skip_space_backward(s: Seq<char>, j: int) -> int
    decreases j,
{
    if 0 < j <= s.len() && is_white_space(s[j - 1]) {
        skip_space_backward(s, j - 1)
    } else {
        j
    }
}

/// `s` without leading and trailing white space (what `str::trim` gives).
pub open spec fn trimmed(s: Seq<char>) -> Seq<char> {
    let start = skip_space_forward(s, 0);
    if start >= s.len() {
        Seq::empty()
    } else {
        s.subrange(start, skip_space_backward(s, s.len() as int))
    }
}

/// `c` with ASCII upper-case letters mapped to lower case.
pub open spec fn ascii_lower(c: char) -> char {
    if 'A' <= c <= 'Z' {
        ((c as u32) + 32) as char
    } else {
        c
    }
}

/// Whether `s` equals `word` (written in lower case) ignoring ASCII case.
pub open spec fn eq_ignore_ascii_case(s: Seq<char>, word: Seq<char>) -> bool {
    &&& s.len() == word.len()
    &&& forall|i: int| 0 <= i < s.len() ==> ascii_lower(#[trigger] s[i]) == word[i]
}

/// Whether an environment value switches a setting on: after trimming white
/// space it is `1`, `true`, `yes` or `on`, in any ASCII case.
pub open spec fn truthy(value: Seq<char>) -> bool {
    let t = trimmed(value);
    ||| eq_ignore_ascii_case(t, seq!['1'])
    ||| eq_ignore_ascii_case(t, seq!['t', 'r', 'u', 'e'])
    ||| eq_ignore_ascii_case(t, seq!['y', 'e', 's'])
    ||| eq_ignore_ascii_case(t, seq!['o', 'n'])
}

/// The mode that the three inputs resolve to.
pub open spec fn resolved_mode(
    explicit_flag: Option<ExplicitChoice>,
    env_strict: Option<Seq<char>>,
    argv0_basename: Option<Seq<char>>,
) -> CompatibilityMode {
    match explicit_flag {
        Some(ExplicitChoice::Default) => CompatibilityMode::Default,
        Some(ExplicitChoice::Strict) => CompatibilityMode::Strict,
        None => {
            if env_strict matches Some(v) && truthy(v) {
                CompatibilityMode::Strict
            } else if argv0_basename matches Some(name) && eq_ignore_ascii_case(name, seq!['t', 's']) {
                CompatibilityMode::Strict
            } else {
                CompatibilityMode::Default
            }
        },
    }
}

/// An explicit flag decides the mode whatever the environment and the
/// invocation name say.
pub proof fn law_explicit_flag_wins(
    choice: ExplicitChoice,
    env_strict: Option<Seq<char>>,
    argv0_basename: Option<Seq<char>>,
)
    ensures
        resolved_mode(Some(choice), env_strict, argv0_basename) == match choice {
            ExplicitChoice::Strict => CompatibilityMode::Strict,
            ExplicitChoice::Default => CompatibilityMode::Default,
        },
{
}

/// Without an explicit flag, a truthy `RUSTY_TS_STRICT` gives Strict mode
/// whatever the invocation name; without either, the invocation name `ts`
/// (in any case) gives Strict mode and any other name Default.
pub proof fn law_environment_then_name(env_strict: Option<Seq<char>>, argv0_basename: Option<Seq<char>>)
    ensures
        (env_strict matches Some(v) && truthy(v)) ==> resolved_mode(None, env_strict, argv0_basename)
            == CompatibilityMode::Strict,
        !(env_strict matches Some(v) && truthy(v)) ==> (resolved_mode(None, env_strict, argv0_basename)
            == CompatibilityMode::Strict <==> (argv0_basename matches Some(n) && eq_ignore_ascii_case(
            n,
            seq!['t', 's'],
        ))),
{
}

fn is_white_space_char(c: char) -> (r: bool)
    ensures
        r == is_white_space(c),
{
    let u = c as u32;
    (0x09 <= u && u <= 0x0d) || u == 0x20 || u == 0x85 || u == 0xa0 || u == 0x1680 || (0x2000 <= u
        && u <= 0x200a) || u == 0x2028 || u == 0x2029 || u == 0x202f || u == 0x205f || u == 0x3000
}

fn lower_ascii(c: char) -> (r: char)
    ensures
        r == ascii_lower(c),
{
    if 'A' <= c && c <= 'Z' {
        ((c as u8) + 32) as char
    } else {
        c
    }
}

/// Whether `chars[from..to]` equals `word` ignoring ASCII case.
fn slice_eq_ignore_ascii_case(chars: &Vec<char>, from: usize, to: usize, word: &[char]) -> (r: bool)
    requires
        from <= to <= chars.len(),
    ensures
        r == eq_ignore_ascii_case(chars@.subrange(from as int, to as int), word@),
{
    let ghost s = chars@.subrange(from as int, to as int);
    if to - from != word.len() {
        return false;
    }
    let mut i: usize = 0;
    while i < word.len()
        invariant
            from <= to <= chars.len(),
            to - from == word.len(),
            s == chars@.subrange(from as int, to as int),
            i <= word.len(),
            forall|k: int| 0 <= k < i ==> ascii_lower(#[trigger] s[k]) == word@[k],
        decreases word.len() - i,
    {
        if lower_ascii(chars[from + i]) != word[i] {
            assert(ascii_lower(s[i as int]) != word@[i as int]);
            return false;
        }
        i = i + 1;
    }
    true
}

/// Whether an environment value switches a setting on (see [`truthy`]).
pub fn env_var_is_truthy(value: &str) -> (r: bool)
    ensures
        r == truthy(value@),
{
    let chars = chars_of(value);
    let n = chars.len();
    let mut start: usize = 0;
    while start < n && is_white_space_char(chars[start])
        invariant
            start <= n,
            n == chars.len(),
            skip_space_forward(chars@, 0) == skip_space_forward(chars@, start as int),
        decreases n - start,
    {
        start = start + 1;
    }
    if start >= n {
        assert(trimmed(value@) =~= Seq::<char>::empty());
        return false;
    }
    let mut end: usize = n;
    while end > 0 && is_white_space_char(chars[end - 1])
        invariant
            end <= n,
            n == chars.len(),
            skip_space_backward(chars@, n as int) == skip_space_backward(chars@, end as int),
        decreases end,
    {
        end = end - 1;
    }
    proof {
        lemma_skip_backward_bound(chars@, n as int, start as int);
    }
    let one = ['1'];
    let t = ['t', 'r', 'u', 'e'];
    let y = ['y', 'e', 's'];
    let o = ['o', 'n'];
    slice_eq_ignore_ascii_case(&chars, start, end, &one) || slice_eq_ignore_ascii_case(
        &chars,
        start,
        end,
        &t,
    ) || slice_eq_ignore_ascii_case(&chars, start, end, &y) || slice_eq_ignore_ascii_case(
        &chars,
        start,
        end,
        &o,
    )
}

proof fn lemma_skip_backward_bound(s: Seq<char>, j: int, start: int)
    requires
        0 <= start < j <= s.len(),
        !is_white_space(s[start]),
    ensures
        start < skip_space_backward(s, j),
    decreases j,
{
    if 0 < j <= s.len() && is_white_space(s[j - 1]) {
        lemma_skip_backward_bound(s, j - 1, start);
    }
}

/// Resolves the compatibility mode: `--no-strict` beats `--strict`, which
/// beats a truthy `RUSTY_TS_STRICT`, which beats an invocation name of `ts`.
pub fn resolve(
    explicit_flag: Option<ExplicitChoice>,
    env_strict: Option<&str>,
    argv0_basename: Option<&str>,
) -> (r: CompatibilityMode)
    ensures
        r == resolved_mode(
            explicit_flag,
            match env_strict {
                Some(v) => Some(v@),
                None => None,
            },
            match argv0_basename {
                Some(n) => Some(n@),
                None => None,
            },
        ),
{
    match explicit_flag {
        Some(ExplicitChoice::Default) => return CompatibilityMode::Default,
        Some(ExplicitChoice::Strict) => return CompatibilityMode::Strict,
        None => {},
    }
    if let Some(value) = env_strict {
        if env_var_is_truthy(value) {
            return CompatibilityMode::Strict;
        }
    }
    if let Some(name) = argv0_basename {
        let chars = chars_of(name);
        let ts = ['t', 's'];
        proof {
            assert(chars@.subrange(0, chars@.len() as int) =~= chars@);
        }
        if slice_eq_ignore_ascii_case(&chars, 0, chars.len(), &ts) {
            return CompatibilityMode::Strict;
        }
    }
    CompatibilityMode::Default
}


/// The position of the last `ch` in `p`, or -1 where there is none.
pub open spec fn last_index(p: Seq<char>, ch: char) -> int
    decreases p.len(),
{
    if p.len() == 0 {
        -1
    } else if p.last() == ch {
        p.len() - 1
    } else {
        last_index(p.drop_last(), ch)
    }
}

/// The last position of `ch` lies within `p`, holds `ch`, and none follows.
pub proof fn lemma_last_index(p: Seq<char>, ch: char)
    ensures
        -1 <= last_index(p, ch) < p.len(),
        last_index(p, ch) >= 0 ==> p[last_index(p, ch)] == ch,
        forall|k: int| last_index(p, ch) < k < p.len() ==> p[k] != ch,
    decreases p.len(),
{
    if p.len() > 0 && p.last() != ch {
        lemma_last_index(p.drop_last(), ch);
        assert forall|k: int| last_index(p, ch) < k < p.len() implies p[k] != ch by {
            if k < p.len() - 1 {
                assert(p[k] == p.drop_last()[k]);
            }
        }
    }
}

/// The last component of a path: the last text between `/`s that is
/// neither empty nor `.`; `None` where there is none (an empty path, `/`,
/// `.`).
pub open spec fn last_component(p: Seq<char>) -> Option<Seq<char>>
    decreases p.len(),
{
    let k = last_index(p, '/');
    let seg = p.skip(k + 1);
    if seg.len() > 0 && seg != seq!['.'] {
        Some(seg)
    } else if k < 0 {
        None
    } else {
        proof {
            lemma_last_index(p, '/');
        }
        last_component(p.take(k))
    }
}

/// A file name without its extension: the text before its last `.`, unless
/// that dot is the first character (a hidden file) or there is none.
pub open spec fn file_stem(name: Seq<char>) -> Seq<char> {
    let d = last_index(name, '.');
    if d <= 0 {
        name
    } else {
        name.take(d)
    }
}

/// The invocation name of a program path, as `Path::file_stem` gives it:
/// the stem of the last component, or `None` where the path has no last
/// component or it is `..`.
pub open spec fn basename_of(p: Seq<char>) -> Option<Seq<char>> {
    match last_component(p) {
        Some(seg) => if seg == seq!['.', '.'] {
            None
        } else {
            Some(file_stem(seg))
        },
        None => None,
    }
}

/// The position of the last `ch` in `chars[..end]` (see [`last_index`]).
fn find_last(chars: &Vec<char>, end: usize, ch: char) -> (r: Option<usize>)
    requires
        end <= chars.len(),
    ensures
        r matches Some(k) ==> k < end && k as int == last_index(chars@.take(end as int), ch),
        r is None ==> last_index(chars@.take(end as int), ch) == -1,
{
    let mut i = end;
    while i > 0
        invariant
            i <= end <= chars.len(),
            last_index(chars@.take(end as int), ch) == last_index(chars@.take(i as int), ch),
        decreases i,
    {
        assert(chars@.take(i as int).drop_last() =~= chars@.take(i - 1));
        if chars[i - 1] == ch {
            return Some(i - 1);
        }
        i = i - 1;
    }
    None
}

/// The invocation name of the program path `argv0`, its directories and
/// extension removed (`/usr/bin/ts.exe` gives `ts`; see [`basename_of`]).
pub fn argv0_basename(argv0: &str) -> (r: Option<String>)
    ensures
        match basename_of(argv0@) {
            Some(n) => r matches Some(s) && s@ == n,
            None => r is None,
        },
{
    let c = chars_of(argv0);
    let mut end = c.len();
    assert(c@.take(end as int) =~= argv0@);
    loop
        invariant
            end <= c.len(),
            c@ == argv0@,
            last_component(argv0@) == last_component(c@.take(end as int)),
        decreases end,
    {
        let ghost p = c@.take(end as int);
        proof {
            lemma_last_index(p, '/');
        }
        let slash = find_last(&c, end, '/');
        let start = match slash {
            Some(k) => k + 1,
            None => 0,
        };
        assert(p.skip(start as int) =~= c@.subrange(start as int, end as int));
        let seg_len = end - start;
        let is_dot = seg_len == 1 && c[start] == '.';
        if seg_len > 0 && !is_dot {
            proof {
                if p.skip(start as int) == seq!['.'] {
                    assert(p.skip(start as int)[0] == c@[start as int]);
                }
            }
            let seg = string_of(&c, start, end);
            if seg_len == 2 && c[start] == '.' && c[start + 1] == '.' {
                assert(seg@ =~= seq!['.', '.']);
                return None;
            }
            proof {
                if seg@ == seq!['.', '.'] {
                    assert(seg@[0] == c@[start as int] && seg@[1] == c@[start + 1]);
                }
            }
            let sc = chars_of(seg.as_str());
            let dot = find_last(&sc, sc.len(), '.');
            assert(sc@.take(sc.len() as int) =~= sc@);
            return match dot {
                Some(d) => {
                    if d == 0 {
                        Some(seg)
                    } else {
                        Some(string_of(&sc, 0, d))
                    }
                },
                None => Some(seg),
            };
        }
        proof {
            if seg_len == 1 {
                assert(p.skip(start as int) =~= seq![c@[start as int]]);
            }
        }
        match slash {
            Some(k) => {
                assert(c@.take(end as int).take(k as int) =~= c@.take(k as int));
                end = k;
            },
            None => {
                return None;
            },
        }
    }
}

} // verus!
