//! The three enumerated option values of the command line, each parsed from a
//! closed set of tokens, case-insensitively and ignoring surrounding whitespace.

use vstd::prelude::*;
use vstd::string::StrSliceExecFns;
use crate::errors::ParseError;

verus! {

/// A digital logic level that an output pin can be driven to.
#[derive(Clone, Copy, Debug, PartialEq, Eq, Structural)]
pub enum LogicValue {
    High,
    Low,
}

/// The direction a pin is configured for.
#[derive(Clone, Copy, Debug, PartialEq, Eq, Structural)]
pub enum PinMode {
    Output,
    Input,
}

/// The bias resistor applied to an input pin.
#[derive(Clone, Copy, Debug, PartialEq, Eq, Structural)]
pub enum PullMode {
    Up,
    Down,
}

/// True for the characters that count as whitespace around a token.
pub open spec fn is_space(c: char) -> bool {
    c == ' ' || c == '\t' || c == '\n' || c == '\u{b}' || c == '\u{c}' || c == '\r'
        || c == '\u{85}' || c == '\u{a0}' || c == '\u{1680}'
        || ('\u{2000}' <= c && c <= '\u{200a}')
        || c == '\u{2028}' || c == '\u{2029}' || c == '\u{202f}' || c == '\u{205f}'
        || c == '\u{3000}'
}

fn is_space_char(c: char) -> (b: bool)
    ensures
        b == is_space(c),
{
    c == ' ' || c == '\t' || c == '\n' || c == '\u{b}' || c == '\u{c}' || c == '\r'
        || c == '\u{85}' || c == '\u{a0}' || c == '\u{1680}'
        || ('\u{2000}' <= c && c <= '\u{200a}')
        || c == '\u{2028}' || c == '\u{2029}' || c == '\u{202f}' || c == '\u{205f}'
        || c == '\u{3000}'
}

/// Lowers an ASCII uppercase letter; leaves every other character alone.
pub open spec fn lower_char(c: char) -> char {
    if 'A' <= c && c <= 'Z' {
        ((c as u32) + 32) as char
    } else {
        c
    }
}

fn lower_char_exec(c: char) -> (r: char)
    ensures
        r == lower_char(c),
{
    if 'A' <= c && c <= 'Z' {
        let b: u8 = c as u8;
        let lb: u8 = b + 32;
        lb as char
    } else {
        c
    }
}

/// Every character of the sequence lowered.
pub open spec fn lower_seq(s: Seq<char>) -> Seq<char> {
    s.map_values(|c: char| lower_char(c))
}

/// Index of the first character at or after `i` that is not whitespace
/// (the sequence's length if there is none).
pub open spec fn space_prefix_end(s: Seq<char>, i: int) -> int
    decreases s.len() - i,
{
    if 0 <= i < s.len() && is_space(s[i]) {
        space_prefix_end(s, i + 1)
    } else {
        i
    }
}

/// Index just past the last character before `j` that is not whitespace
/// (zero if there is none).
pub open spec fn space_suffix_start(s: Seq<char>, j: int) -> int
    decreases j,
{
    if 0 < j <= s.len() && is_space(s[j - 1]) {
        space_suffix_start(s, j - 1)
    } else {
        j
    }
}

/// The sequence with surrounding whitespace removed.
pub open spec fn trimmed(s: Seq<char>) -> Seq<char> {
    let lo = space_prefix_end(s, 0);
    let hi = space_suffix_start(s, s.len() as int);
    if lo < hi {
        s.subrange(lo, hi)
    } else {
        Seq::empty()
    }
}

/// The canonical form a token is matched in: trimmed, then lowered.
pub open spec fn normalize(s: Seq<char>) -> Seq<char> {
    lower_seq(trimmed(s))
}

proof fn lemma_space_prefix_end_range(s: Seq<char>, i: int)
    requires
        0 <= i <= s.len(),
    ensures
        i <= space_prefix_end(s, i) <= s.len(),
    decreases s.len() - i,
{
    if i < s.len() && is_space(s[i]) {
        lemma_space_prefix_end_range(s, i + 1);
    }
}

proof fn lemma_space_suffix_start_range(s: Seq<char>, j: int)
    requires
        0 <= j <= s.len(),
    ensures
        0 <= space_suffix_start(s, j) <= j,
    decreases j,
{
    if 0 < j && is_space(s[j - 1]) {
        lemma_space_suffix_start_range(s, j - 1);
    }
}

/// Trims and lowers a token, yielding its canonical character sequence.
fn normalize_token(s: &str) -> (r: Vec<char>)
    ensures
        r@ == normalize(s@),
{
    let n = s.unicode_len();
    let mut lo: usize = 0;
    while lo < n && is_space_char(s.get_char(lo))
        invariant
            0 <= lo <= n == s@.len(),
            space_prefix_end(s@, 0) == space_prefix_end(s@, lo as int),
        decreases n - lo,
    {
        lo = lo + 1;
    }
    proof {
        assert(space_prefix_end(s@, 0) == lo as int);
    }
    let mut hi: usize = n;
    while hi > lo && is_space_char(s.get_char(hi - 1))
        invariant
            lo <= hi <= n == s@.len(),
            space_prefix_end(s@, 0) == lo as int,
            space_suffix_start(s@, n as int) == space_suffix_start(s@, hi as int),
        decreases hi,
    {
        hi = hi - 1;
    }
    proof {
        lemma_space_suffix_start_range(s@, n as int);
        if hi > lo {
            assert(space_suffix_start(s@, n as int) == hi as int);
        } else {
            assert(hi == lo);
        }
    }
    let mut r: Vec<char> = Vec::new();
    if hi <= lo {
        proof {
            if lo < n {
                // the first loop stopped on a non-space character, which the
                // second loop cannot have stepped past
                assert(!is_space(s@[lo as int]));
                assert(space_suffix_start(s@, lo + 1) == lo + 1);
                lemma_space_suffix_start_range(s@, lo as int);
                assert(space_suffix_start(s@, n as int) <= lo as int);
                lemma_suffix_start_monotone(s@, lo + 1, n as int);
                assert(false);
            }
            assert(space_suffix_start(s@, n as int) <= n as int);
            assert(trimmed(s@) =~= Seq::<char>::empty());
            assert(r@ =~= normalize(s@));
        }
        return r;
    }
    let mut i: usize = lo;
    while i < hi
        invariant
            lo <= i <= hi <= n == s@.len(),
            r@.len() == i - lo,
            forall|k: int| 0 <= k < r@.len() ==> r@[k] == lower_char(s@[lo + k]),
        decreases hi - i,
    {
        let c = lower_char_exec(s.get_char(i));
        r.push(c);
        i = i + 1;
    }
    proof {
        assert(space_suffix_start(s@, n as int) == hi as int);
        assert(trimmed(s@) == s@.subrange(lo as int, hi as int));
        assert(r@ =~= normalize(s@));
    }
    r
}

/// If every suffix position from `a` up is reached, the suffix scan cannot
/// jump below `a` once it has stopped at or above it.
proof fn lemma_suffix_start_monotone(s: Seq<char>, a: int, b: int)
    requires
        0 <= a <= b <= s.len(),
    ensures
        space_suffix_start(s, a) <= space_suffix_start(s, b)
            || space_suffix_start(s, b) >= a,
    decreases b,
{
    if a < b {
        if 0 < b && is_space(s[b - 1]) {
            lemma_suffix_start_monotone(s, a, b - 1);
        }
    }
}

/// True if `v` holds exactly the characters of `lit`.
fn chars_eq_str(v: &Vec<char>, lit: &str) -> (b: bool)
    ensures
        b == (v@ == lit@),
{
    let n = lit.unicode_len();
    if v.len() != n {
        proof {
            assert(v@ != lit@) by {
                if v@ == lit@ {
                    assert(v@.len() == lit@.len());
                }
            }
        }
        return false;
    }
    let mut i: usize = 0;
    while i < n
        invariant
            0 <= i <= n == lit@.len() == v@.len(),
            forall|k: int| 0 <= k < i ==> v@[k] == lit@[k],
        decreases n - i,
    {
        if v[i] != lit.get_char(i) {
            proof {
                assert(v@[i as int] != lit@[i as int]);
            }
            return false;
        }
        i = i + 1;
    }
    proof {
        assert(v@ =~= lit@);
    }
    true
}

/// True if the whole sequence is whitespace.
pub open spec fn all_space(s: Seq<char>) -> bool {
    forall|i: int| 0 <= i < s.len() ==> is_space(s[i])
}

proof fn lemma_prefix_end_skips_spaces(u: Seq<char>, k: int, m: int)
    requires
        0 <= k <= m <= u.len(),
        forall|i: int| k <= i < m ==> is_space(u[i]),
    ensures
        space_prefix_end(u, k) == space_prefix_end(u, m),
    decreases m - k,
{
    if k < m {
        assert(is_space(u[k]));
        lemma_prefix_end_skips_spaces(u, k + 1, m);
    }
}

proof fn lemma_suffix_start_skips_spaces(u: Seq<char>, m: int, j: int)
    requires
        0 <= m <= j <= u.len(),
        forall|i: int| m <= i < j ==> is_space(u[i]),
    ensures
        space_suffix_start(u, j) == space_suffix_start(u, m),
    decreases j - m,
{
    if m < j {
        assert(is_space(u[j - 1]));
        lemma_suffix_start_skips_spaces(u, m, j - 1);
    }
}

proof fn lemma_prefix_end_append(pre: Seq<char>, w: Seq<char>, k: int)
    requires
        0 <= k <= w.len(),
    ensures
        space_prefix_end(pre + w, pre.len() + k) == pre.len() + space_prefix_end(w, k),
    decreases w.len() - k,
{
    let u = pre + w;
    if k < w.len() && is_space(w[k]) {
        assert(u[pre.len() + k] == w[k]);
        lemma_prefix_end_append(pre, w, k + 1);
    } else {
        if k < w.len() {
            assert(u[pre.len() + k] == w[k]);
        }
    }
}

proof fn lemma_suffix_start_append(pre: Seq<char>, w: Seq<char>, j: int)
    requires
        0 <= j <= w.len(),
    ensures
        space_suffix_start(pre + w, pre.len() + j) == (if space_suffix_start(w, j) == 0 {
            space_suffix_start(pre + w, pre.len() as int)
        } else {
            pre.len() + space_suffix_start(w, j)
        }),
    decreases j,
{
    let u = pre + w;
    if j > 0 {
        assert(u[pre.len() + j - 1] == w[j - 1]);
        if is_space(w[j - 1]) {
            lemma_suffix_start_append(pre, w, j - 1);
        }
    }
}

proof fn lemma_prefix_end_in_prefix(w: Seq<char>, post: Seq<char>, k: int)
    requires
        0 <= k <= w.len(),
    ensures
        space_prefix_end(w + post, k) == (if space_prefix_end(w, k) == w.len() {
            space_prefix_end(w + post, w.len() as int)
        } else {
            space_prefix_end(w, k)
        }),
    decreases w.len() - k,
{
    let u = w + post;
    if k < w.len() {
        assert(u[k] == w[k]);
        if is_space(w[k]) {
            lemma_prefix_end_in_prefix(w, post, k + 1);
        } else {
            lemma_space_prefix_end_range(w, k);
        }
    }
}

proof fn lemma_suffix_start_in_prefix(w: Seq<char>, post: Seq<char>, j: int)
    requires
        0 <= j <= w.len(),
    ensures
        space_suffix_start(w + post, j) == space_suffix_start(w, j),
    decreases j,
{
    let u = w + post;
    if j > 0 {
        assert(u[j - 1] == w[j - 1]);
        if is_space(w[j - 1]) {
            lemma_suffix_start_in_prefix(w, post, j - 1);
        }
    }
}

proof fn lemma_trimmed_strips_prefix(pre: Seq<char>, w: Seq<char>)
    requires
        all_space(pre),
    ensures
        trimmed(pre + w) == trimmed(w),
{
    let u = pre + w;
    let lo_w = space_prefix_end(w, 0);
    let hi_w = space_suffix_start(w, w.len() as int);
    lemma_space_prefix_end_range(w, 0);
    lemma_space_suffix_start_range(w, w.len() as int);
    lemma_prefix_end_skips_spaces(u, 0, pre.len() as int);
    lemma_prefix_end_append(pre, w, 0);
    assert(space_prefix_end(u, 0) == pre.len() + lo_w);
    assert(u.len() == pre.len() + w.len());
    lemma_suffix_start_append(pre, w, w.len() as int);
    if hi_w == 0 {
        lemma_suffix_start_skips_spaces(u, 0, pre.len() as int);
        assert(space_suffix_start(u, u.len() as int) == 0);
        assert(trimmed(u) =~= trimmed(w));
    } else {
        assert(space_suffix_start(u, u.len() as int) == pre.len() + hi_w);
        if lo_w < hi_w {
            assert forall|i: int| 0 <= i < hi_w - lo_w implies u.subrange(
                pre.len() + lo_w,
                pre.len() + hi_w,
            )[i] == w.subrange(lo_w, hi_w)[i] by {
                assert(u[pre.len() + lo_w + i] == w[lo_w + i]);
            }
            assert(trimmed(u) =~= trimmed(w));
        } else {
            assert(trimmed(u) =~= trimmed(w));
        }
    }
}

proof fn lemma_trimmed_strips_suffix(w: Seq<char>, post: Seq<char>)
    requires
        all_space(post),
    ensures
        trimmed(w + post) == trimmed(w),
{
    let u = w + post;
    let lo_w = space_prefix_end(w, 0);
    let hi_w = space_suffix_start(w, w.len() as int);
    lemma_space_prefix_end_range(w, 0);
    lemma_space_suffix_start_range(w, w.len() as int);
    assert(u.len() == w.len() + post.len());
    lemma_prefix_end_in_prefix(w, post, 0);
    lemma_suffix_start_skips_spaces(u, w.len() as int, u.len() as int);
    lemma_suffix_start_in_prefix(w, post, w.len() as int);
    assert(space_suffix_start(u, u.len() as int) == hi_w);
    if lo_w == w.len() {
        lemma_prefix_end_skips_spaces(u, w.len() as int, u.len() as int);
        assert(space_prefix_end(u, 0) == u.len() as int);
        assert(trimmed(u) =~= trimmed(w));
    } else {
        assert(space_prefix_end(u, 0) == lo_w);
        if lo_w < hi_w {
            assert forall|i: int| 0 <= i < hi_w - lo_w implies u.subrange(lo_w, hi_w)[i]
                == w.subrange(lo_w, hi_w)[i] by {
                assert(u[lo_w + i] == w[lo_w + i]);
            }
            assert(trimmed(u) =~= trimmed(w));
        } else {
            assert(trimmed(u) =~= trimmed(w));
        }
    }
}

/// Surrounding whitespace never changes what a token normalizes to, so every
/// token class is matched with it ignored.
pub proof fn lemma_normalize_ignores_whitespace(pre: Seq<char>, s: Seq<char>, post: Seq<char>)
    requires
        all_space(pre),
        all_space(post),
    ensures
        normalize(pre + s + post) == normalize(s),
{
    assert(pre + s + post =~= pre + (s + post));
    assert(all_space(post));
    lemma_trimmed_strips_prefix(pre, s + post);
    lemma_trimmed_strips_suffix(s, post);
}

proof fn lemma_lower_keeps_space(c: char)
    ensures
        is_space(lower_char(c)) == is_space(c),
{
    if 'A' <= c && c <= 'Z' {
        let d = lower_char(c);
        assert(65 <= c as u32 <= 90);
        assert(d as u32 == c as u32 + 32);
        assert(97 <= d as u32 <= 122);
        assert(!is_space(c));
        assert(!is_space(d));
    }
}

proof fn lemma_prefix_end_same_spaces(s: Seq<char>, t: Seq<char>, k: int)
    requires
        s.len() == t.len(),
        forall|i: int| 0 <= i < s.len() ==> is_space(s[i]) == is_space(t[i]),
        0 <= k <= s.len(),
    ensures
        space_prefix_end(s, k) == space_prefix_end(t, k),
    decreases s.len() - k,
{
    if k < s.len() && is_space(s[k]) {
        lemma_prefix_end_same_spaces(s, t, k + 1);
    }
}

proof fn lemma_suffix_start_same_spaces(s: Seq<char>, t: Seq<char>, j: int)
    requires
        s.len() == t.len(),
        forall|i: int| 0 <= i < s.len() ==> is_space(s[i]) == is_space(t[i]),
        0 <= j <= s.len(),
    ensures
        space_suffix_start(s, j) == space_suffix_start(t, j),
    decreases j,
{
    if 0 < j && is_space(s[j - 1]) {
        lemma_suffix_start_same_spaces(s, t, j - 1);
    }
}

/// Tokens that agree up to ASCII case normalize alike, so every token class
/// is matched case-insensitively.
pub proof fn lemma_normalize_case_insensitive(s: Seq<char>, t: Seq<char>)
    requires
        lower_seq(s) == lower_seq(t),
    ensures
        normalize(s) == normalize(t),
{
    assert(lower_seq(s).len() == s.len());
    assert(lower_seq(t).len() == t.len());
    assert(s.len() == t.len());
    assert forall|i: int| 0 <= i < s.len() implies is_space(s[i]) == is_space(t[i]) by {
        assert(lower_seq(s)[i] == lower_char(s[i]));
        assert(lower_seq(t)[i] == lower_char(t[i]));
        lemma_lower_keeps_space(s[i]);
        lemma_lower_keeps_space(t[i]);
    }
    lemma_prefix_end_same_spaces(s, t, 0);
    lemma_suffix_start_same_spaces(s, t, s.len() as int);
    lemma_space_prefix_end_range(s, 0);
    lemma_space_suffix_start_range(s, s.len() as int);
    let lo = space_prefix_end(s, 0);
    let hi = space_suffix_start(s, s.len() as int);
    if lo < hi {
        assert forall|k: int| 0 <= k < hi - lo implies normalize(s)[k] == normalize(t)[k] by {
            assert(normalize(s)[k] == lower_char(s.subrange(lo, hi)[k]));
            assert(normalize(t)[k] == lower_char(t.subrange(lo, hi)[k]));
            assert(lower_seq(s)[lo + k] == lower_char(s[lo + k]));
            assert(lower_seq(t)[lo + k] == lower_char(t[lo + k]));
        }
        assert(normalize(s) =~= normalize(t));
    } else {
        assert(normalize(s) =~= normalize(t));
    }
}

/// True if `s` holds exactly the characters of `lit`.
pub(crate) fn str_eq_lit(s: &str, lit: &str) -> (b: bool)
    ensures
        b == (s@ == lit@),
{
    let n = lit.unicode_len();
    if s.unicode_len() != n {
        proof {
            assert(s@ != lit@) by {
                if s@ == lit@ {
                    assert(s@.len() == lit@.len());
                }
            }
        }
        return false;
    }
    let mut i: usize = 0;
    while i < n
        invariant
            0 <= i <= n == lit@.len() == s@.len(),
            forall|k: int| 0 <= k < i ==> s@[k] == lit@[k],
        decreases n - i,
    {
        if s.get_char(i) != lit.get_char(i) {
            proof {
                assert(s@[i as int] != lit@[i as int]);
            }
            return false;
        }
        i = i + 1;
    }
    proof {
        assert(s@ =~= lit@);
    }
    true
}

/// True exactly on the canonical tokens that denote `LogicValue::Low`.
pub open spec fn is_low_token(t: Seq<char>) -> bool {
    t == "0"@ || t == "low"@ || t == "l"@
}

/// True exactly on the canonical tokens that denote `LogicValue::High`.
pub open spec fn is_high_token(t: Seq<char>) -> bool {
    t == "1"@ || t == "high"@ || t == "hi"@ || t == "h"@
}

/// True exactly on the canonical tokens that denote `PinMode::Output`.
pub open spec fn is_output_token(t: Seq<char>) -> bool {
    t == "out"@ || t == "output"@ || t == "o"@
}

/// True exactly on the canonical tokens that denote `PinMode::Input`.
pub open spec fn is_input_token(t: Seq<char>) -> bool {
    t == "in"@ || t == "input"@ || t == "i"@
}

/// True exactly on the canonical tokens that denote `PullMode::Down`.
pub open spec fn is_down_token(t: Seq<char>) -> bool {
    t == "0"@ || t == "down"@ || t == "d"@
}

/// True exactly on the canonical tokens that denote `PullMode::Up`.
pub open spec fn is_up_token(t: Seq<char>) -> bool {
    t == "1"@ || t == "up"@ || t == "u"@
}

/// What parsing a logic-value token yields.
pub open spec fn spec_parse_logic_value(s: Seq<char>) -> Result<LogicValue, ParseError> {
    if is_low_token(normalize(s)) {
        Ok(LogicValue::Low)
    } else if is_high_token(normalize(s)) {
        Ok(LogicValue::High)
    } else {
        Err(ParseError::InvalidValue)
    }
}

/// What parsing a pin-mode token yields.
pub open spec fn spec_parse_pin_mode(s: Seq<char>) -> Result<PinMode, ParseError> {
    if is_output_token(normalize(s)) {
        Ok(PinMode::Output)
    } else if is_input_token(normalize(s)) {
        Ok(PinMode::Input)
    } else {
        Err(ParseError::InvalidMode)
    }
}

/// What parsing a pull-mode token yields.
pub open spec fn spec_parse_pull_mode(s: Seq<char>) -> Result<PullMode, ParseError> {
    if is_down_token(normalize(s)) {
        Ok(PullMode::Down)
    } else if is_up_token(normalize(s)) {
        Ok(PullMode::Up)
    } else {
        Err(ParseError::InvalidPull)
    }
}

proof fn lemma_trimmed_of_unspaced(t: Seq<char>)
    requires
        forall|i: int| 0 <= i < t.len() ==> !is_space(t[i]),
    ensures
        normalize(t) == lower_seq(t),
{
    if t.len() > 0 {
        assert(!is_space(t[0]));
        assert(space_prefix_end(t, 0) == 0);
        assert(!is_space(t[t.len() - 1]));
        assert(space_suffix_start(t, t.len() as int) == t.len() as int);
        assert(t.subrange(0, t.len() as int) =~= t);
    } else {
        assert(trimmed(t) =~= t);
    }
}

proof fn lemma_unspaced_when_lowered(t: Seq<char>, w: Seq<char>)
    requires
        lower_seq(t) == w,
        forall|i: int| 0 <= i < w.len() ==> !is_space(w[i]),
    ensures
        forall|i: int| 0 <= i < t.len() ==> !is_space(t[i]),
{
    assert(lower_seq(t).len() == t.len());
    assert forall|i: int| 0 <= i < t.len() implies !is_space(t[i]) by {
        assert(lower_seq(t)[i] == lower_char(t[i]));
        lemma_lower_keeps_space(t[i]);
        assert(!is_space(w[i]));
    }
}

proof fn lemma_canonical_tokens_hold_no_space(w: Seq<char>)
    requires
        w == "0"@ || w == "low"@ || w == "l"@ || w == "1"@ || w == "high"@ || w == "hi"@
            || w == "h"@ || w == "out"@ || w == "output"@ || w == "o"@ || w == "in"@
            || w == "input"@ || w == "i"@ || w == "down"@ || w == "d"@ || w == "up"@
            || w == "u"@,
    ensures
        forall|i: int| 0 <= i < w.len() ==> !is_space(w[i]),
{
    reveal_strlit("0");
    reveal_strlit("low");
    reveal_strlit("l");
    reveal_strlit("1");
    reveal_strlit("high");
    reveal_strlit("hi");
    reveal_strlit("h");
    reveal_strlit("out");
    reveal_strlit("output");
    reveal_strlit("o");
    reveal_strlit("in");
    reveal_strlit("input");
    reveal_strlit("i");
    reveal_strlit("down");
    reveal_strlit("d");
    reveal_strlit("up");
    reveal_strlit("u");
}

/// Every token that lowers to the low class, with any surrounding whitespace,
/// parses to `Low`; every one that lowers to the high class, to `High`.
pub proof fn lemma_logic_value_accepts_decorated_tokens(
    pre: Seq<char>,
    t: Seq<char>,
    post: Seq<char>,
)
    requires
        all_space(pre),
        all_space(post),
    ensures
        is_low_token(lower_seq(t)) ==> spec_parse_logic_value(pre + t + post) == Ok::<
            LogicValue,
            ParseError,
        >(LogicValue::Low),
        is_high_token(lower_seq(t)) ==> spec_parse_logic_value(pre + t + post) == Ok::<
            LogicValue,
            ParseError,
        >(LogicValue::High),
{
    lemma_normalize_ignores_whitespace(pre, t, post);
    let w = lower_seq(t);
    if is_low_token(w) || is_high_token(w) {
        lemma_canonical_tokens_hold_no_space(w);
        lemma_unspaced_when_lowered(t, w);
        lemma_trimmed_of_unspaced(t);
        lemma_logic_value_token_classes(pre + t + post);
    }
}

/// Every token that lowers to the output class, with any surrounding
/// whitespace, parses to `Output`; every one that lowers to the input class,
/// to `Input`.
pub proof fn lemma_pin_mode_accepts_decorated_tokens(pre: Seq<char>, t: Seq<char>, post: Seq<char>)
    requires
        all_space(pre),
        all_space(post),
    ensures
        is_output_token(lower_seq(t)) ==> spec_parse_pin_mode(pre + t + post) == Ok::<
            PinMode,
            ParseError,
        >(PinMode::Output),
        is_input_token(lower_seq(t)) ==> spec_parse_pin_mode(pre + t + post) == Ok::<
            PinMode,
            ParseError,
        >(PinMode::Input),
{
    lemma_normalize_ignores_whitespace(pre, t, post);
    let w = lower_seq(t);
    if is_output_token(w) || is_input_token(w) {
        lemma_canonical_tokens_hold_no_space(w);
        lemma_unspaced_when_lowered(t, w);
        lemma_trimmed_of_unspaced(t);
        lemma_pin_mode_token_classes(pre + t + post);
    }
}

/// Every token that lowers to the down class, with any surrounding
/// whitespace, parses to `Down`; every one that lowers to the up class, to
/// `Up`.
pub proof fn lemma_pull_mode_accepts_decorated_tokens(pre: Seq<char>, t: Seq<char>, post: Seq<char>)
    requires
        all_space(pre),
        all_space(post),
    ensures
        is_down_token(lower_seq(t)) ==> spec_parse_pull_mode(pre + t + post) == Ok::<
            PullMode,
            ParseError,
        >(PullMode::Down),
        is_up_token(lower_seq(t)) ==> spec_parse_pull_mode(pre + t + post) == Ok::<
            PullMode,
            ParseError,
        >(PullMode::Up),
{
    lemma_normalize_ignores_whitespace(pre, t, post);
    let w = lower_seq(t);
    if is_down_token(w) || is_up_token(w) {
        lemma_canonical_tokens_hold_no_space(w);
        lemma_unspaced_when_lowered(t, w);
        lemma_trimmed_of_unspaced(t);
        lemma_pull_mode_token_classes(pre + t + post);
    }
}

/// The logic-value token classes are disjoint and exhaustive: every token in
/// the low class parses to `Low`, every token in the high class to `High`,
/// and every other token fails with `InvalidValue`.
pub proof fn lemma_logic_value_token_classes(s: Seq<char>)
    ensures
        is_low_token(normalize(s)) ==> spec_parse_logic_value(s) == Ok::<
            LogicValue,
            ParseError,
        >(LogicValue::Low),
        is_high_token(normalize(s)) ==> spec_parse_logic_value(s) == Ok::<
            LogicValue,
            ParseError,
        >(LogicValue::High),
        !is_low_token(normalize(s)) && !is_high_token(normalize(s))
            ==> spec_parse_logic_value(s) == Err::<LogicValue, ParseError>(ParseError::InvalidValue),
{
    reveal_strlit("0");
    reveal_strlit("low");
    reveal_strlit("l");
    reveal_strlit("1");
    reveal_strlit("high");
    reveal_strlit("hi");
    reveal_strlit("h");
    let t = normalize(s);
    if is_low_token(t) && is_high_token(t) {
        assert(("0"@).len() == 1 && ("low"@).len() == 3 && ("l"@).len() == 1);
        assert(("1"@).len() == 1 && ("high"@).len() == 4 && ("hi"@).len() == 2 && ("h"@).len() == 1);
        assert(("0"@)[0] == '0' && ("1"@)[0] == '1' && ("l"@)[0] == 'l' && ("h"@)[0] == 'h');
        assert(false);
    }
}

/// The pin-mode token classes are disjoint and exhaustive: every token in the
/// output class parses to `Output`, every token in the input class to
/// `Input`, and every other token fails with `InvalidMode`.
pub proof fn lemma_pin_mode_token_classes(s: Seq<char>)
    ensures
        is_output_token(normalize(s)) ==> spec_parse_pin_mode(s) == Ok::<
            PinMode,
            ParseError,
        >(PinMode::Output),
        is_input_token(normalize(s)) ==> spec_parse_pin_mode(s) == Ok::<
            PinMode,
            ParseError,
        >(PinMode::Input),
        !is_output_token(normalize(s)) && !is_input_token(normalize(s)) ==> spec_parse_pin_mode(s)
            == Err::<PinMode, ParseError>(ParseError::InvalidMode),
{
    reveal_strlit("out");
    reveal_strlit("output");
    reveal_strlit("o");
    reveal_strlit("in");
    reveal_strlit("input");
    reveal_strlit("i");
    let t = normalize(s);
    if is_output_token(t) && is_input_token(t) {
        assert(("out"@).len() == 3 && ("output"@).len() == 6 && ("o"@).len() == 1);
        assert(("in"@).len() == 2 && ("input"@).len() == 5 && ("i"@).len() == 1);
        assert(("o"@)[0] == 'o' && ("i"@)[0] == 'i');
        assert(false);
    }
}

/// The pull-mode token classes are disjoint and exhaustive: every token in
/// the down class parses to `Down`, every token in the up class to `Up`, and
/// every other token fails with `InvalidPull`.
pub proof fn lemma_pull_mode_token_classes(s: Seq<char>)
    ensures
        is_down_token(normalize(s)) ==> spec_parse_pull_mode(s) == Ok::<
            PullMode,
            ParseError,
        >(PullMode::Down),
        is_up_token(normalize(s)) ==> spec_parse_pull_mode(s) == Ok::<
            PullMode,
            ParseError,
        >(PullMode::Up),
        !is_down_token(normalize(s)) && !is_up_token(normalize(s)) ==> spec_parse_pull_mode(s)
            == Err::<PullMode, ParseError>(ParseError::InvalidPull),
{
    reveal_strlit("0");
    reveal_strlit("down");
    reveal_strlit("d");
    reveal_strlit("1");
    reveal_strlit("up");
    reveal_strlit("u");
    let t = normalize(s);
    if is_down_token(t) && is_up_token(t) {
        assert(("0"@).len() == 1 && ("down"@).len() == 4 && ("d"@).len() == 1);
        assert(("1"@).len() == 1 && ("up"@).len() == 2 && ("u"@).len() == 1);
        assert(("0"@)[0] == '0' && ("1"@)[0] == '1' && ("d"@)[0] == 'd' && ("u"@)[0] == 'u');
        assert(false);
    }
}

impl LogicValue {
    /// Parses a logic-value token: `0`, `low` or `l` give `Low`; `1`, `high`,
    /// `hi` or `h` give `High`; anything else is `InvalidValue`.
    pub fn parse(s: &str) -> (r: Result<LogicValue, ParseError>)
        ensures
            r == spec_parse_logic_value(s@),
    {
        let t = normalize_token(s);
        if chars_eq_str(&t, "0") || chars_eq_str(&t, "low") || chars_eq_str(&t, "l") {
            Ok(LogicValue::Low)
        } else if chars_eq_str(&t, "1") || chars_eq_str(&t, "high") || chars_eq_str(&t, "hi")
            || chars_eq_str(&t, "h") {
            Ok(LogicValue::High)
        } else {
            Err(ParseError::InvalidValue)
        }
    }
}

impl PinMode {
    /// Parses a pin-mode token: `out`, `output` or `o` give `Output`; `in`,
    /// `input` or `i` give `Input`; anything else is `InvalidMode`.
    pub fn parse(s: &str) -> (r: Result<PinMode, ParseError>)
        ensures
            r == spec_parse_pin_mode(s@),
    {
        let t = normalize_token(s);
        if chars_eq_str(&t, "out") || chars_eq_str(&t, "output") || chars_eq_str(&t, "o") {
            Ok(PinMode::Output)
        } else if chars_eq_str(&t, "in") || chars_eq_str(&t, "input") || chars_eq_str(&t, "i") {
            Ok(PinMode::Input)
        } else {
            Err(ParseError::InvalidMode)
        }
    }
}

impl PullMode {
    /// Parses a pull-mode token: `0`, `down` or `d` give `Down`; `1`, `up` or
    /// `u` give `Up`; anything else is `InvalidPull`.
    pub fn parse(s: &str) -> (r: Result<PullMode, ParseError>)
        ensures
            r == spec_parse_pull_mode(s@),
    {
        let t = normalize_token(s);
        if chars_eq_str(&t, "0") || chars_eq_str(&t, "down") || chars_eq_str(&t, "d") {
            Ok(PullMode::Down)
        } else if chars_eq_str(&t, "1") || chars_eq_str(&t, "up") || chars_eq_str(&t, "u") {
            Ok(PullMode::Up)
        } else {
            Err(ParseError::InvalidPull)
        }
    }
}

} // verus!
