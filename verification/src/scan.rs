//! Scanning primitives shared by the line parsers: character-class runs,
//! first-match search, and the fold that describes how a batch of lines
//! updates one field of the game state.

use vstd::prelude::*;
use crate::text::{is_space_char, is_digit_char, is_upper_char};

verus! {

/// The end of the run of characters of class `cls` that starts at `i`:
/// the first index at or after `i` holding no such character.
pub open spec fn run_end(s: Seq<char>, cls: spec_fn(char) -> bool, i: int) -> int
    decreases s.len() - i,
{
    if 0 <= i < s.len() && cls(s[i]) {
        run_end(s, cls, i + 1)
    } else {
        i
    }
}

/// Characterization of `run_end`: a stretch of class characters followed by
/// the end of the string or a non-class character ends the run exactly there.
pub proof fn lemma_run_end_is(s: Seq<char>, cls: spec_fn(char) -> bool, i: int, j: int)
    requires
        0 <= i <= j <= s.len(),
        forall|k: int| i <= k < j ==> cls(s[k]),
        j == s.len() || !cls(s[j]),
    ensures
        run_end(s, cls, i) == j,
    decreases j - i,
{
    if i == j {
    } else {
        assert(cls(s[i]));
        lemma_run_end_is(s, cls, i + 1, j);
    }
}

/// The properties of `run_end` needed by callers.
pub proof fn lemma_run_end(s: Seq<char>, cls: spec_fn(char) -> bool, i: int)
    requires
        0 <= i <= s.len(),
    ensures
        i <= run_end(s, cls, i) <= s.len(),
        forall|k: int| i <= k < run_end(s, cls, i) ==> cls(s[k]),
        run_end(s, cls, i) < s.len() ==> !cls(s[run_end(s, cls, i)]),
    decreases s.len() - i,
{
    if i < s.len() && cls(s[i]) {
        lemma_run_end(s, cls, i + 1);
    }
}

/// A run never ends before it starts.
pub proof fn lemma_run_end_ge(s: Seq<char>, cls: spec_fn(char) -> bool, i: int)
    ensures
        run_end(s, cls, i) >= i,
    decreases s.len() - i,
{
    if 0 <= i < s.len() && cls(s[i]) {
        lemma_run_end_ge(s, cls, i + 1);
    }
}

pub open spec fn ws_end(s: Seq<char>, i: int) -> int {
    run_end(s, |c: char| is_space_char(c), i)
}

pub open spec fn digits_end(s: Seq<char>, i: int) -> int {
    run_end(s, |c: char| is_digit_char(c), i)
}

/// End of a run of uppercase letters and whitespace (a system name).
pub open spec fn name_end(s: Seq<char>, i: int) -> int {
    run_end(s, |c: char| is_upper_char(c) || is_space_char(c), i)
}

/// Skip whitespace from `i`.
pub fn skip_ws(v: &Vec<char>, i: usize) -> (r: usize)
    requires
        i <= v@.len(),
    ensures
        r == ws_end(v@, i as int),
        i <= r <= v@.len(),
{
    let mut j = i;
    while j < v.len() && (v[j] == ' ' || v[j] == '\t' || v[j] == '\n' || v[j] == '\r' || v[j]
        == '\u{b}' || v[j] == '\u{c}')
        invariant
            i <= j <= v@.len(),
            forall|k: int| i <= k < j ==> is_space_char(v@[k]),
        decreases v@.len() - j,
    {
        j = j + 1;
    }
    proof {
        lemma_run_end_is(v@, |c: char| is_space_char(c), i as int, j as int);
    }
    j
}

/// Skip decimal digits from `i`.
pub fn skip_digits(v: &Vec<char>, i: usize) -> (r: usize)
    requires
        i <= v@.len(),
    ensures
        r == digits_end(v@, i as int),
        i <= r <= v@.len(),
        forall|k: int| i <= k < r ==> is_digit_char(v@[k]),
        r < v@.len() ==> !is_digit_char(v@[r as int]),
{
    let mut j = i;
    while j < v.len() && crate::text::is_digit(v[j])
        invariant
            i <= j <= v@.len(),
            forall|k: int| i <= k < j ==> is_digit_char(v@[k]),
        decreases v@.len() - j,
    {
        j = j + 1;
    }
    proof {
        lemma_run_end_is(v@, |c: char| is_digit_char(c), i as int, j as int);
        lemma_run_end(v@, |c: char| is_digit_char(c), i as int);
    }
    j
}

pub fn is_name_c(c: char) -> (r: bool)
    ensures
        r == (is_upper_char(c) || is_space_char(c)),
{
    let u = c as u32;
    (65 <= u && u <= 90) || c == ' ' || c == '\t' || c == '\n' || c == '\r' || c == '\u{b}' || c
        == '\u{c}'
}

/// Skip uppercase letters and whitespace from `i`.
pub fn skip_name(v: &Vec<char>, i: usize) -> (r: usize)
    requires
        i <= v@.len(),
    ensures
        r == name_end(v@, i as int),
        i <= r <= v@.len(),
{
    let mut j = i;
    while j < v.len() && is_name_c(v[j])
        invariant
            i <= j <= v@.len(),
            forall|k: int| i <= k < j ==> is_upper_char(v@[k]) || is_space_char(v@[k]),
        decreases v@.len() - j,
    {
        j = j + 1;
    }
    proof {
        lemma_run_end_is(v@, |c: char| is_upper_char(c) || is_space_char(c), i as int, j as int);
    }
    j
}

/// The first index at or after `i` satisfying `p`, if any.
pub open spec fn first_from(s: Seq<char>, p: spec_fn(int) -> bool, i: int) -> Option<int>
    decreases s.len() - i,
{
    if i >= s.len() {
        None
    } else if p(i) {
        Some(i)
    } else {
        first_from(s, p, i + 1)
    }
}

/// Characterization of `first_from`.
pub proof fn lemma_first_from_is(s: Seq<char>, p: spec_fn(int) -> bool, i: int, r: Option<int>)
    requires
        0 <= i <= s.len(),
        match r {
            Some(j) => i <= j < s.len() && p(j) && forall|k: int| i <= k < j ==> !#[trigger] p(k),
            None => forall|k: int| i <= k < s.len() ==> !#[trigger] p(k),
        },
    ensures
        first_from(s, p, i) == r,
    decreases s.len() - i,
{
    if i < s.len() {
        if r == Some(i) {
        } else {
            assert(!p(i));
            lemma_first_from_is(s, p, i + 1, r);
        }
    }
}

/// The last index in `[lo, k]` satisfying `p`, if any.
pub open spec fn last_until(p: spec_fn(int) -> bool, k: int, lo: int) -> Option<int>
    decreases k - lo + 1,
{
    if k < lo {
        None
    } else if p(k) {
        Some(k)
    } else {
        last_until(p, k - 1, lo)
    }
}

/// Characterization of `last_until`.
pub proof fn lemma_last_until_is(p: spec_fn(int) -> bool, k: int, lo: int, r: Option<int>)
    requires
        match r {
            Some(j) => lo <= j <= k && p(j) && forall|m: int| j < m <= k ==> !#[trigger] p(m),
            None => forall|m: int| lo <= m <= k ==> !#[trigger] p(m),
        },
    ensures
        last_until(p, k, lo) == r,
    decreases k - lo + 1,
{
    if k >= lo {
        if r == Some(k) {
        } else {
            assert(!p(k));
            lemma_last_until_is(p, k - 1, lo, r);
        }
    }
}

/// The start of the run of class characters that ends just before `j`:
/// the least index from which every character up to `j` is of the class.
pub open spec fn run_start(s: Seq<char>, cls: spec_fn(char) -> bool, j: int) -> int
    decreases j,
{
    if 0 < j <= s.len() && cls(s[j - 1]) {
        run_start(s, cls, j - 1)
    } else {
        j
    }
}

/// Characterization of `run_start`.
pub proof fn lemma_run_start_is(s: Seq<char>, cls: spec_fn(char) -> bool, j: int, p: int)
    requires
        0 <= p <= j <= s.len(),
        forall|k: int| p <= k < j ==> cls(s[k]),
        p == 0 || !cls(s[p - 1]),
    ensures
        run_start(s, cls, j) == p,
    decreases j - p,
{
    if p == j {
    } else {
        assert(cls(s[j - 1]));
        lemma_run_start_is(s, cls, j - 1, p);
    }
}

/// How one observation updates one optional field: a new reading replaces
/// the old value, no reading leaves it alone.
pub open spec fn field_step<T>(old_v: Option<T>, obs: Option<T>) -> Option<T> {
    if obs is Some {
        obs
    } else {
        old_v
    }
}

/// The value of one optional field after a batch of lines, each read by the
/// extractor `ext`, has been applied in order.
pub open spec fn field_fold<T>(
    lines: Seq<Seq<char>>,
    init: Option<T>,
    ext: spec_fn(Seq<char>) -> Option<T>,
) -> Option<T>
    decreases lines.len(),
{
    if lines.len() == 0 {
        init
    } else {
        field_step(field_fold(lines.drop_last(), init, ext), ext(lines.last()))
    }
}

/// Retention: a batch in which no line yields a reading for a field leaves
/// that field exactly as it was.
pub proof fn lemma_field_retention<T>(
    lines: Seq<Seq<char>>,
    init: Option<T>,
    ext: spec_fn(Seq<char>) -> Option<T>,
)
    requires
        forall|i: int| 0 <= i < lines.len() ==> ext(lines[i]) is None,
    ensures
        field_fold(lines, init, ext) == init,
    decreases lines.len(),
{
    if lines.len() > 0 {
        assert(ext(lines.last()) is None);
        lemma_field_retention(lines.drop_last(), init, ext);
    }
}

} // verus!
