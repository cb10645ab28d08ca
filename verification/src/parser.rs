//! Line parsers for the game's free-text output: numeric extractions,
//! prompt ranges, quadrant names, damage tables and the two sensor grids.
//! Each parser finds the leftmost occurrence of its pattern.

use vstd::prelude::*;
use crate::text::{is_space_char, is_digit_char, is_upper_char, matches_at, contains_seq, trim_seq,
    chars_of, trim_chars, contains_lit};
use crate::scan::{ws_end, digits_end, name_end, first_from, last_until, run_start, run_end, skip_ws,
    skip_digits, skip_name, lemma_run_end, lemma_run_end_is, lemma_first_from_is, lemma_last_until_is,
    lemma_run_start_is};
use crate::numbers::{all_digits, dec_value, parsed_i32, milli_value, parse_i32_digits,
    milli_of_digits, string_from_chars, lemma_dec_value_nonneg};

verus! {

/// A decimal number (digits, optionally a point and more digits) starts at
/// `d`.
pub open spec fn num_at(s: Seq<char>, d: int) -> bool {
    0 <= d < s.len() && is_digit_char(s[d])
}

/// The number starting at `d` carries a fractional part.
pub open spec fn num_frac(s: Seq<char>, d: int) -> bool {
    let e = digits_end(s, d);
    e < s.len() && s[e] == '.' && e + 1 < s.len() && is_digit_char(s[e + 1])
}

/// Where the number starting at `d` ends.
pub open spec fn num_end(s: Seq<char>, d: int) -> int {
    let e = digits_end(s, d);
    if num_frac(s, d) {
        digits_end(s, e + 1)
    } else {
        e
    }
}

/// The thousandths fixed-point value of the number starting at `d`.
pub open spec fn num_milli(s: Seq<char>, d: int) -> int {
    let e = digits_end(s, d);
    if num_frac(s, d) {
        milli_value(s.subrange(d, e), s.subrange(e + 1, digits_end(s, e + 1)))
    } else {
        milli_value(s.subrange(d, e), s.subrange(e, e))
    }
}

/// Read the number starting at digit position `d`: its value in
/// thousandths, and its end.
fn read_num(v: &Vec<char>, d: usize) -> (r: (i64, usize))
    requires
        num_at(v@, d as int),
    ensures
        r.0 == num_milli(v@, d as int),
        r.1 == num_end(v@, d as int),
        d < r.1 <= v@.len(),
{
    let e = skip_digits(v, d);
    proof {
        assert(all_digits(v@.subrange(d as int, e as int)));
        lemma_run_end(v@, |c: char| is_digit_char(c), d as int);
        assert(is_digit_char(v@[d as int]));
        assert(e > d);
    }
    if e < v.len() && v[e] == '.' && e + 1 < v.len() && crate::text::is_digit(v[e + 1]) {
        let f = skip_digits(v, e + 1);
        proof {
            assert(all_digits(v@.subrange(e + 1, f as int)));
        }
        (milli_of_digits(v, d, e, e + 1, f), f)
    } else {
        proof {
            assert(all_digits(v@.subrange(e as int, e as int)));
        }
        (milli_of_digits(v, d, e, e, e), e)
    }
}

/// The pattern of an energy-available report matches at `i`: the word
/// ENERGY, whitespace, AVAILABLE, an equals sign and a digit run.
pub open spec fn ea_at(s: Seq<char>, i: int) -> bool {
    matches_at(s, "ENERGY"@, i) && {
        let w = ws_end(s, i + "ENERGY"@.len());
        w > i + "ENERGY"@.len() && matches_at(s, "AVAILABLE"@, w) && {
            let q = ws_end(s, w + "AVAILABLE"@.len());
            q < s.len() && s[q] == '=' && {
                let d = ws_end(s, q + 1);
                d < s.len() && is_digit_char(s[d])
            }
        }
    }
}

/// Where the captured digits of an energy-available match at `i` start.
pub open spec fn ea_digits(s: Seq<char>, i: int) -> int {
    let w = ws_end(s, i + "ENERGY"@.len());
    ws_end(s, ws_end(s, w + "AVAILABLE"@.len()) + 1)
}

/// What `parse_energy_available` yields: the value of the digits of the
/// leftmost match, unless it overflows an `i32`.
pub open spec fn energy_available_spec(s: Seq<char>) -> Option<int> {
    match first_from(s, |i: int| ea_at(s, i), 0) {
        Some(i) => {
            let d = ea_digits(s, i);
            parsed_i32(s.subrange(d, digits_end(s, d)))
        },
        None => None,
    }
}

fn ea_at_exec(v: &Vec<char>, i: usize) -> (r: bool)
    requires
        i <= v@.len(),
    ensures
        r == ea_at(v@, i as int),
{
    let lit = chars_of("ENERGY");
    if lit.len() > v.len() - i || !crate::text::match_at(v, &lit, i) {
        return false;
    }
    let w = skip_ws(v, i + lit.len());
    if w == i + lit.len() {
        return false;
    }
    let avail = chars_of("AVAILABLE");
    if avail.len() > v.len() - w || !crate::text::match_at(v, &avail, w) {
        return false;
    }
    let q = skip_ws(v, w + avail.len());
    if !(q < v.len() && v[q] == '=') {
        return false;
    }
    let d = skip_ws(v, q + 1);
    d < v.len() && crate::text::is_digit(v[d])
}

/// Parse an available-energy figure from a line such as
/// `ENERGY AVAILABLE = 3000 NUMBER OF UNITS TO SHIELDS`.
pub fn parse_energy_available(line: &str) -> (r: Option<i32>)
    ensures
        match r {
            Some(n) => energy_available_spec(line@) == Some(n as int),
            None => energy_available_spec(line@) is None,
        },
{
    let v = chars_of(line);
    energy_available_chars(&v)
}

/// A parsed energy figure is never negative.
pub proof fn lemma_energy_available_nonneg(s: Seq<char>)
    requires
        energy_available_spec(s) is Some,
    ensures
        energy_available_spec(s)->Some_0 >= 0,
{
    let p = |i: int| ea_at(s, i);
    let i = first_from(s, p, 0)->Some_0;
    lemma_first_from_bounds(s, p, 0, i);
    assert(ea_at(s, i));
    let w = ws_end(s, i + "ENERGY"@.len());
    crate::scan::lemma_run_end_ge(s, |c: char| is_space_char(c), i + "ENERGY"@.len());
    let q = ws_end(s, w + "AVAILABLE"@.len());
    crate::scan::lemma_run_end_ge(s, |c: char| is_space_char(c), w + "AVAILABLE"@.len());
    let d = ea_digits(s, i);
    crate::scan::lemma_run_end_ge(s, |c: char| is_space_char(c), q + 1);
    assert(0 <= d < s.len());
    lemma_run_end(s, |c: char| is_digit_char(c), d);
    assert forall|k: int| 0 <= k < s.subrange(d, digits_end(s, d)).len() implies is_digit_char(
        s.subrange(d, digits_end(s, d))[k],
    ) by {
        assert(s.subrange(d, digits_end(s, d))[k] == s[d + k]);
    }
    lemma_dec_value_nonneg(s.subrange(d, digits_end(s, d)));
}

/// The same parse, on a line already split into characters.
pub fn energy_available_chars(v: &Vec<char>) -> (r: Option<i32>)
    ensures
        match r {
            Some(n) => energy_available_spec(v@) == Some(n as int),
            None => energy_available_spec(v@) is None,
        },
{
    let ghost p = |i: int| ea_at(v@, i);
    let n = v.len();
    let mut i: usize = 0;
    while i < n
        invariant
            i <= n,
            n == v@.len(),
            forall|j: int| 0 <= j < i ==> !#[trigger] p(j),
        decreases n - i,
    {
        if ea_at_exec(v, i) {
            proof {
                assert(p(i as int));
                lemma_first_from_is(v@, p, 0, Some(i as int));
            }
            let lit_len = chars_of("ENERGY").len();
            let w = skip_ws(v, i + lit_len);
            let avail_len = chars_of("AVAILABLE").len();
            let q = skip_ws(v, w + avail_len);
            let d = skip_ws(v, q + 1);
            assert(d == ea_digits(v@, i as int));
            let e = skip_digits(v, d);
            proof {
                assert(all_digits(v@.subrange(d as int, e as int)));
            }
            return parse_i32_digits(v, d, e);
        }
        proof {
            assert(!p(i as int));
        }
        i = i + 1;
    }
    proof {
        lemma_first_from_is(v@, p, 0, None);
    }
    None
}

/// The pattern of a warp-factor range matches at `i`: WARP, whitespace,
/// FACTOR, an opening parenthesis, a number, a dash, a number and a
/// closing parenthesis.
pub open spec fn wf_at(s: Seq<char>, i: int) -> bool {
    matches_at(s, "WARP"@, i) && {
        let w = ws_end(s, i + "WARP"@.len());
        w > i + "WARP"@.len() && matches_at(s, "FACTOR"@, w) && {
            let q = ws_end(s, w + "FACTOR"@.len());
            q < s.len() && s[q] == '(' && num_at(s, q + 1) && {
                let m = num_end(s, q + 1);
                m < s.len() && s[m] == '-' && num_at(s, m + 1) && {
                    let e = num_end(s, m + 1);
                    e < s.len() && s[e] == ')'
                }
            }
        }
    }
}

/// The position of the opening parenthesis of a warp-factor match at `i`.
pub open spec fn wf_open(s: Seq<char>, i: int) -> int {
    ws_end(s, ws_end(s, i + "WARP"@.len()) + "FACTOR"@.len())
}

/// What `parse_warp_factor_range` yields: both bounds of the leftmost
/// range, in thousandths.
pub open spec fn warp_range_spec(s: Seq<char>) -> Option<(int, int)> {
    match first_from(s, |i: int| wf_at(s, i), 0) {
        Some(i) => {
            let q = wf_open(s, i);
            Some((num_milli(s, q + 1), num_milli(s, num_end(s, q + 1) + 1)))
        },
        None => None,
    }
}

fn wf_at_exec(v: &Vec<char>, i: usize) -> (r: bool)
    requires
        i <= v@.len(),
    ensures
        r == wf_at(v@, i as int),
{
    let lit = chars_of("WARP");
    if lit.len() > v.len() - i || !crate::text::match_at(v, &lit, i) {
        return false;
    }
    let w = skip_ws(v, i + lit.len());
    if w == i + lit.len() {
        return false;
    }
    let factor = chars_of("FACTOR");
    if factor.len() > v.len() - w || !crate::text::match_at(v, &factor, w) {
        return false;
    }
    let q = skip_ws(v, w + factor.len());
    if !(q < v.len() && v[q] == '(') {
        return false;
    }
    if !(q + 1 < v.len() && crate::text::is_digit(v[q + 1])) {
        return false;
    }
    let (_, m) = read_num(v, q + 1);
    if !(m < v.len() && v[m] == '-') {
        return false;
    }
    if !(m + 1 < v.len() && crate::text::is_digit(v[m + 1])) {
        return false;
    }
    let (_, e) = read_num(v, m + 1);
    e < v.len() && v[e] == ')'
}

/// Parse a warp-factor range such as `WARP FACTOR (0-8)?`; the bounds come
/// back in thousandths, so `(0-8)` is `(0, 8000)`.
pub fn parse_warp_factor_range(line: &str) -> (r: Option<(i64, i64)>)
    ensures
        match r {
            Some(b) => warp_range_spec(line@) == Some((b.0 as int, b.1 as int)),
            None => warp_range_spec(line@) is None,
        },
{
    let v = chars_of(line);
    let ghost p = |i: int| wf_at(v@, i);
    let n = v.len();
    let mut i: usize = 0;
    while i < n
        invariant
            i <= n,
            n == v@.len(),
            v@ == line@,
            forall|j: int| 0 <= j < i ==> !#[trigger] p(j),
        decreases n - i,
    {
        if wf_at_exec(&v, i) {
            proof {
                assert(p(i as int));
                lemma_first_from_is(v@, p, 0, Some(i as int));
            }
            let lit_len = chars_of("WARP").len();
            let w = skip_ws(&v, i + lit_len);
            let factor_len = chars_of("FACTOR").len();
            let q = skip_ws(&v, w + factor_len);
            assert(q == wf_open(v@, i as int));
            let (lo, m) = read_num(&v, q + 1);
            let (hi, _) = read_num(&v, m + 1);
            return Some((lo, hi));
        }
        proof {
            assert(!p(i as int));
        }
        i = i + 1;
    }
    proof {
        lemma_first_from_is(v@, p, 0, None);
    }
    None
}

/// The pattern of a course range matches at `i`: COURSE, an opening
/// parenthesis, a number, a dash, a number and a closing parenthesis.
pub open spec fn course_at(s: Seq<char>, i: int) -> bool {
    matches_at(s, "COURSE"@, i) && {
        let q = ws_end(s, i + "COURSE"@.len());
        q < s.len() && s[q] == '(' && num_at(s, q + 1) && {
            let m = num_end(s, q + 1);
            m < s.len() && s[m] == '-' && num_at(s, m + 1) && {
                let e = num_end(s, m + 1);
                e < s.len() && s[e] == ')'
            }
        }
    }
}

/// What `parse_course_command` yields: the lower bound of the leftmost
/// course range, in thousandths.
pub open spec fn course_spec(s: Seq<char>) -> Option<int> {
    match first_from(s, |i: int| course_at(s, i), 0) {
        Some(i) => Some(num_milli(s, ws_end(s, i + "COURSE"@.len()) + 1)),
        None => None,
    }
}

fn course_at_exec(v: &Vec<char>, i: usize) -> (r: bool)
    requires
        i <= v@.len(),
    ensures
        r == course_at(v@, i as int),
{
    let lit = chars_of("COURSE");
    if lit.len() > v.len() - i || !crate::text::match_at(v, &lit, i) {
        return false;
    }
    let q = skip_ws(v, i + lit.len());
    if !(q < v.len() && v[q] == '(') {
        return false;
    }
    if !(q + 1 < v.len() && crate::text::is_digit(v[q + 1])) {
        return false;
    }
    let (_, m) = read_num(v, q + 1);
    if !(m < v.len() && v[m] == '-') {
        return false;
    }
    if !(m + 1 < v.len() && crate::text::is_digit(v[m + 1])) {
        return false;
    }
    let (_, e) = read_num(v, m + 1);
    e < v.len() && v[e] == ')'
}

/// Parse the lower bound of a course range such as `COURSE (0-9)`, in
/// thousandths.
pub fn parse_course_command(line: &str) -> (r: Option<i64>)
    ensures
        match r {
            Some(n) => course_spec(line@) == Some(n as int),
            None => course_spec(line@) is None,
        },
{
    let v = chars_of(line);
    let ghost p = |i: int| course_at(v@, i);
    let n = v.len();
    let mut i: usize = 0;
    while i < n
        invariant
            i <= n,
            n == v@.len(),
            v@ == line@,
            forall|j: int| 0 <= j < i ==> !#[trigger] p(j),
        decreases n - i,
    {
        if course_at_exec(&v, i) {
            proof {
                assert(p(i as int));
                lemma_first_from_is(v@, p, 0, Some(i as int));
            }
            let lit_len = chars_of("COURSE").len();
            let q = skip_ws(&v, i + lit_len);
            let (lo, _) = read_num(&v, q + 1);
            return Some(lo);
        }
        proof {
            assert(!p(i as int));
        }
        i = i + 1;
    }
    proof {
        lemma_first_from_is(v@, p, 0, None);
    }
    None
}

/// Whether the line asks for coordinates.
pub fn parse_coordinates_prompt(line: &str) -> (r: bool)
    ensures
        r == contains_seq(line@, "COORDINATES (X,Y)"@),
{
    let v = chars_of(line);
    contains_lit(&v, "COORDINATES (X,Y)")
}

/// The characters `v[a..b]`, as a vector.
fn sub_chars(v: &Vec<char>, a: usize, b: usize) -> (r: Vec<char>)
    requires
        a <= b <= v@.len(),
    ensures
        r@ == v@.subrange(a as int, b as int),
{
    let mut out: Vec<char> = Vec::new();
    let mut i = a;
    while i < b
        invariant
            a <= i <= b <= v@.len(),
            out@ == v@.subrange(a as int, i as int),
        decreases b - i,
    {
        out.push(v[i]);
        i = i + 1;
        assert(out@ =~= v@.subrange(a as int, i as int));
    }
    out
}

/// A name character: an uppercase letter or whitespace.
pub open spec fn name_char(c: char) -> bool {
    is_upper_char(c) || is_space_char(c)
}

/// A keyword QUADRANT closes the captured name at `k`: it lies beyond a
/// nonempty name and one separating whitespace character, every character
/// from `a + 1` up to it is a name character, and whitespace stands just
/// before it.
pub open spec fn qn_k(s: Seq<char>, a: int, k: int) -> bool {
    a + 3 <= k && k <= name_end(s, a + 1) && is_space_char(s[k - 1]) && matches_at(
        s,
        "QUADRANT"@,
        k,
    )
}

/// After the introducing phrase ends at `a`: one whitespace character, then
/// a name closed by QUADRANT.
pub open spec fn qn_tail(s: Seq<char>, a: int) -> bool {
    0 <= a < s.len() && is_space_char(s[a]) && exists|k: int| qn_k(s, a, k)
}

/// A quadrant-arrival phrase matches at `i`.
pub open spec fn qn_at(s: Seq<char>, i: int) -> bool {
    ||| (matches_at(s, "NOW ENTERING"@, i) && qn_tail(s, i + "NOW ENTERING"@.len()))
    ||| (matches_at(s, "LOCATED IN"@, i) && qn_tail(s, i + "LOCATED IN"@.len()))
}

/// The captured quadrant name for the phrase ending at `a`: the name runs
/// to the last closing QUADRANT, and is trimmed.
pub open spec fn qn_name(s: Seq<char>, a: int) -> Seq<char> {
    match last_until(|k: int| qn_k(s, a, k), name_end(s, a + 1), a + 3) {
        Some(k) => trim_seq(s.subrange(a + 1, k - 1)),
        None => Seq::empty(),
    }
}

/// What `parse_quadrant_name` yields for a whole line.
pub open spec fn quadrant_name_spec(s: Seq<char>) -> Option<Seq<char>> {
    match first_from(s, |i: int| qn_at(s, i), 0) {
        Some(i) => {
            let a = if matches_at(s, "NOW ENTERING"@, i) {
                i + "NOW ENTERING"@.len()
            } else {
                i + "LOCATED IN"@.len()
            };
            Some(qn_name(s, a))
        },
        None => None,
    }
}

/// The last closing QUADRANT for the phrase ending at `a`, if any.
fn qn_best_k(v: &Vec<char>, a: usize) -> (r: Option<usize>)
    requires
        a < v@.len(),
    ensures
        ({
            let lk = last_until(|k: int| qn_k(v@, a as int, k), name_end(v@, a + 1), a + 3);
            match r {
                Some(k) => lk == Some(k as int) && qn_k(v@, a as int, k as int),
                None => lk is None,
            }
        }),
{
    let ghost p = |k: int| qn_k(v@, a as int, k);
    let n = v.len();
    let ne = skip_name(v, a + 1);
    let quad = chars_of("QUADRANT");
    let mut k = ne;
    loop
        invariant
            a + 1 <= ne <= v@.len(),
            ne == name_end(v@, a + 1),
            k <= ne,
            quad@ == "QUADRANT"@,
            forall|m: int| k < m <= ne ==> !#[trigger] p(m),
        decreases k,
    {
        if k < 3 || k - 3 < a {
            assert(k < a + 3);
            proof {
                assert(forall|m: int| a + 3 <= m <= ne ==> !#[trigger] p(m));
                lemma_last_until_is(p, ne as int, a + 3, None);
            }
            return None;
        }
        let ok = crate::text::is_space_c(v[k - 1]) && quad.len() <= v.len() - k
            && crate::text::match_at(v, &quad, k);
        if ok {
            proof {
                assert(p(k as int));
                lemma_last_until_is(p, ne as int, a + 3, Some(k as int));
            }
            return Some(k);
        }
        proof {
            assert(!p(k as int));
        }
        k = k - 1;
    }
}

fn qn_tail_exec(v: &Vec<char>, a: usize) -> (r: Option<usize>)
    requires
        a <= v@.len(),
    ensures
        (r is Some) == qn_tail(v@, a as int),
        match r {
            Some(k) => last_until(|k: int| qn_k(v@, a as int, k), name_end(v@, a + 1), a + 3)
                == Some(k as int) && qn_k(v@, a as int, k as int),
            None => true,
        },
{
    if !(a < v.len() && crate::text::is_space_c(v[a])) {
        assert(!qn_tail(v@, a as int));
        return None;
    }
    let r = qn_best_k(v, a);
    proof {
        let p = |k: int| qn_k(v@, a as int, k);
        let lk = last_until(p, name_end(v@, a + 1), a + 3);
        match r {
            Some(k) => {
                assert(p(k as int));
                assert(qn_tail(v@, a as int));
            },
            None => {
                assert(!qn_tail(v@, a as int)) by {
                    if qn_tail(v@, a as int) {
                        let k = choose|k: int| qn_k(v@, a as int, k);
                        lemma_last_until_some(p, name_end(v@, a + 1), a + 3, k);
                    }
                }
            },
        }
    }
    r
}

/// If some index in range satisfies `p`, `last_until` finds one.
proof fn lemma_last_until_some(p: spec_fn(int) -> bool, k: int, lo: int, w: int)
    requires
        lo <= w <= k,
        p(w),
    ensures
        last_until(p, k, lo) is Some,
    decreases k - lo + 1,
{
    if k >= lo && !p(k) {
        lemma_last_until_some(p, k - 1, lo, w);
    }
}

fn qn_at_exec(v: &Vec<char>, i: usize) -> (r: bool)
    requires
        i <= v@.len(),
    ensures
        r == qn_at(v@, i as int),
{
    let ne_lit = chars_of("NOW ENTERING");
    if ne_lit.len() <= v.len() - i && crate::text::match_at(v, &ne_lit, i) {
        if qn_tail_exec(v, i + ne_lit.len()).is_some() {
            return true;
        }
    }
    let li_lit = chars_of("LOCATED IN");
    if li_lit.len() <= v.len() - i && crate::text::match_at(v, &li_lit, i) {
        if qn_tail_exec(v, i + li_lit.len()).is_some() {
            return true;
        }
    }
    false
}

/// Parse a quadrant name from a line such as
/// `NOW ENTERING ANTARES QUADRANT...`.
pub fn parse_quadrant_name(line: &str) -> (r: Option<String>)
    ensures
        match r {
            Some(name) => quadrant_name_spec(line@) == Some(name@),
            None => quadrant_name_spec(line@) is None,
        },
{
    let v = chars_of(line);
    let ghost p = |i: int| qn_at(v@, i);
    let n = v.len();
    let mut i: usize = 0;
    while i < n
        invariant
            i <= n,
            n == v@.len(),
            v@ == line@,
            forall|j: int| 0 <= j < i ==> !#[trigger] p(j),
        decreases n - i,
    {
        if qn_at_exec(&v, i) {
            proof {
                assert(p(i as int));
                lemma_first_from_is(v@, p, 0, Some(i as int));
            }
            let ne_lit = chars_of("NOW ENTERING");
            let a = if ne_lit.len() <= v.len() - i && crate::text::match_at(&v, &ne_lit, i) {
                i + ne_lit.len()
            } else {
                i + chars_of("LOCATED IN").len()
            };
            proof {
                if matches_at(v@, "NOW ENTERING"@, i as int) && matches_at(
                    v@,
                    "LOCATED IN"@,
                    i as int,
                ) {
                    reveal_strlit("NOW ENTERING");
                    reveal_strlit("LOCATED IN");
                    assert(v@.subrange(i as int, i + "NOW ENTERING"@.len())[0] == 'N');
                    assert(v@.subrange(i as int, i + "LOCATED IN"@.len())[0] == 'L');
                    assert(false);
                }
            }
            assert(qn_tail(v@, a as int));
            let k = match qn_tail_exec(&v, a) {
                Some(k) => k,
                None => {
                    assert(false);
                    0
                },
            };
            assert(a + 3 <= k);
            let raw = sub_chars(&v, a + 1, k - 1);
            let trimmed = trim_chars(&raw);
            return Some(string_from_chars(&trimmed));
        }
        proof {
            assert(!p(i as int));
        }
        i = i + 1;
    }
    proof {
        lemma_first_from_is(v@, p, 0, None);
    }
    None
}

/// A character of a damage figure: a digit, a point or a minus sign.
pub open spec fn figure_char(c: char) -> bool {
    is_digit_char(c) || c == '.' || c == '-'
}

/// A damage row matches with its figure starting at `c`: a figure
/// character, whitespace just before it, and a name character before that.
pub open spec fn dmg_c(l: Seq<char>, c: int) -> bool {
    2 <= c < l.len() && figure_char(l[c]) && is_space_char(l[c - 1]) && name_char(l[c - 2])
}

/// An unsigned figure token is well formed: digits with at most one point,
/// and at least one digit.
pub open spec fn tok_valid_u(u: Seq<char>) -> bool {
    u.len() > 0 && (forall|i: int| 0 <= i < u.len() ==> is_digit_char(u[i]) || u[i] == '.')
        && match first_from(u, |i: int| u[i] == '.', 0) {
        None => true,
        Some(d) => all_digits(u.subrange(d + 1, u.len() as int)) && u.len() >= 2,
    }
}

/// The thousandths value of a well-formed unsigned figure token.
pub open spec fn tok_u_milli(u: Seq<char>) -> int {
    match first_from(u, |i: int| u[i] == '.', 0) {
        None => milli_value(u, u.subrange(0, 0)),
        Some(d) => milli_value(u.subrange(0, d), u.subrange(d + 1, u.len() as int)),
    }
}

/// The thousandths value of a figure token, if it is well formed: an
/// optional minus sign, then digits with at most one point.
pub open spec fn tok_value(t: Seq<char>) -> Option<int> {
    let neg = t.len() > 0 && t[0] == '-';
    let u = if neg {
        t.subrange(1, t.len() as int)
    } else {
        t
    };
    if tok_valid_u(u) {
        Some(
            if neg {
                -tok_u_milli(u)
            } else {
                tok_u_milli(u)
            },
        )
    } else {
        None
    }
}

/// What one line contributes to a damage report: the system name standing
/// before the leftmost figure, and the figure's value, when it parses.
pub open spec fn dmg_line(l: Seq<char>) -> Option<(Seq<char>, int)> {
    match first_from(l, |c: int| dmg_c(l, c), 0) {
        None => None,
        Some(c) => {
            let p0 = run_start(l, |ch: char| name_char(ch), c);
            let name = trim_seq(l.subrange(p0, c - 1));
            let c2 = run_end(l, |ch: char| figure_char(ch), c);
            match tok_value(l.subrange(c, c2)) {
                Some(m) => Some((name, m)),
                None => None,
            }
        },
    }
}

/// The entries one line adds: none for the report's own header line.
pub open spec fn dmg_entries(l: Seq<char>) -> Seq<(Seq<char>, int)> {
    if contains_seq(l, "DAMAGE CONTROL REPORT"@) {
        Seq::empty()
    } else {
        match dmg_line(l) {
            Some(e) => seq![e],
            None => Seq::empty(),
        }
    }
}

/// What `parse_damage_control_report` yields over a whole batch.
pub open spec fn damage_report_spec(ls: Seq<Seq<char>>) -> Seq<(Seq<char>, int)>
    decreases ls.len(),
{
    if ls.len() == 0 {
        Seq::empty()
    } else {
        damage_report_spec(ls.drop_last()) + dmg_entries(ls.last())
    }
}

fn figure_c(c: char) -> (r: bool)
    ensures
        r == figure_char(c),
{
    crate::text::is_digit(c) || c == '.' || c == '-'
}

/// Parse the signed figure token `t`, in thousandths.
fn tok_value_exec(t: &Vec<char>) -> (r: Option<i64>)
    ensures
        match r {
            Some(m) => tok_value(t@) == Some(m as int),
            None => tok_value(t@) is None,
        },
{
    let neg = t.len() > 0 && t[0] == '-';
    let u0: usize = if neg {
        1
    } else {
        0
    };
    let u = sub_chars(t, u0, t.len());
    proof {
        if neg {
            assert(u@ =~= t@.subrange(1, t@.len() as int));
        } else {
            assert(u@ =~= t@);
        }
    }
    if u.len() == 0 {
        return None;
    }
    let mut i: usize = 0;
    while i < u.len()
        invariant
            i <= u@.len(),
            forall|k: int| 0 <= k < i ==> is_digit_char(u@[k]) || u@[k] == '.',
        decreases u@.len() - i,
    {
        if !(crate::text::is_digit(u[i]) || u[i] == '.') {
            return None;
        }
        i = i + 1;
    }
    let ghost pdot = |i: int| u@[i] == '.';
    let mut d: usize = 0;
    while d < u.len() && u[d] != '.'
        invariant
            d <= u@.len(),
            forall|k: int| 0 <= k < d ==> !#[trigger] pdot(k),
        decreases u@.len() - d,
    {
        proof {
            assert(!pdot(d as int));
        }
        d = d + 1;
    }
    let m: i64 = if d == u.len() {
        proof {
            lemma_first_from_is(u@, pdot, 0, None);
            lemma_first_from_none_digits(u@);
            assert(u@.subrange(0, u@.len() as int) =~= u@);
            assert(u@.subrange(0, 0) =~= u@.subrange(0, 0));
        }
        let mm = milli_of_digits(&u, 0, u.len(), 0, 0);
        proof {
            assert(tok_u_milli(u@) == milli_value(u@.subrange(0, u@.len() as int), u@.subrange(0, 0)));
            assert(milli_value(u@.subrange(0, u@.len() as int), u@.subrange(0, 0)) == milli_value(
                u@,
                u@.subrange(0, 0),
            ));
        }
        mm
    } else {
        proof {
            assert(pdot(d as int));
            lemma_first_from_is(u@, pdot, 0, Some(d as int));
        }
        let frac_ok = check_digits(&u, d + 1, u.len());
        if !frac_ok || u.len() < 2 {
            return None;
        }
        proof {
            lemma_first_from_dot(u@, d as int);
        }
        milli_of_digits(&u, 0, d, d + 1, u.len())
    };
    proof {
        assert(tok_valid_u(u@));
        lemma_milli_nonneg_tok(u@);
    }
    if neg {
        Some(-m)
    } else {
        Some(m)
    }
}

/// Whether `v[a..b]` holds digits only.
fn check_digits(v: &Vec<char>, a: usize, b: usize) -> (r: bool)
    requires
        a <= b <= v@.len(),
    ensures
        r == all_digits(v@.subrange(a as int, b as int)),
{
    let mut i = a;
    while i < b
        invariant
            a <= i <= b <= v@.len(),
            forall|k: int| a <= k < i ==> is_digit_char(v@[k]),
        decreases b - i,
    {
        if !crate::text::is_digit(v[i]) {
            assert(v@.subrange(a as int, b as int)[i - a] == v@[i as int]);
            return false;
        }
        i = i + 1;
    }
    assert(forall|k: int| 0 <= k < b - a ==> v@.subrange(a as int, b as int)[k] == v@[a + k]);
    true
}

/// The thousandths value of a well-formed token is nonnegative and small.
proof fn lemma_milli_nonneg_tok(u: Seq<char>)
    requires
        tok_valid_u(u),
    ensures
        0 <= tok_u_milli(u) <= crate::numbers::MILLI_SAT,
{
    match first_from(u, |i: int| u[i] == '.', 0) {
        None => {
            lemma_first_from_none_digits(u);
            lemma_milli_value_bounds(u, u.subrange(0, 0));
        },
        Some(d) => {
            lemma_first_from_dot(u, d);
            lemma_milli_value_bounds(u.subrange(0, d), u.subrange(d + 1, u.len() as int));
        },
    }
}

/// If no character of `u` is a point and each is a digit or a point, all
/// are digits.
proof fn lemma_first_from_none_digits(u: Seq<char>)
    requires
        forall|i: int| 0 <= i < u.len() ==> is_digit_char(u[i]) || u[i] == '.',
        first_from(u, |i: int| u[i] == '.', 0) is None,
    ensures
        all_digits(u),
{
    let pdot = |i: int| u[i] == '.';
    assert forall|i: int| 0 <= i < u.len() implies is_digit_char(u[i]) by {
        lemma_first_from_covers(u, pdot, 0, i);
    }
}

/// `first_from` returning `None` rules out every index.
proof fn lemma_first_from_covers(s: Seq<char>, p: spec_fn(int) -> bool, i: int, w: int)
    requires
        0 <= i <= w < s.len(),
        first_from(s, p, i) is None,
    ensures
        !p(w),
    decreases w - i,
{
    assert(!p(i));
    if i < w {
        lemma_first_from_covers(s, p, i + 1, w);
    }
}

/// Before the first point stand only digits.
proof fn lemma_first_from_dot(u: Seq<char>, d: int)
    requires
        forall|i: int| 0 <= i < u.len() ==> is_digit_char(u[i]) || u[i] == '.',
        first_from(u, |i: int| u[i] == '.', 0) == Some(d),
    ensures
        0 <= d < u.len(),
        all_digits(u.subrange(0, d)),
{
    let pdot = |i: int| u[i] == '.';
    lemma_first_from_bounds(u, pdot, 0, d);
    assert forall|i: int| 0 <= i < d implies is_digit_char(u.subrange(0, d)[i]) by {
        lemma_first_from_before(u, pdot, 0, d, i);
        assert(u.subrange(0, d)[i] == u[i]);
    }
}

/// `first_from` returns an index in range satisfying `p`.
proof fn lemma_first_from_bounds(s: Seq<char>, p: spec_fn(int) -> bool, i: int, d: int)
    requires
        0 <= i,
        first_from(s, p, i) == Some(d),
    ensures
        i <= d < s.len(),
        p(d),
    decreases s.len() - i,
{
    if i < s.len() && !p(i) {
        lemma_first_from_bounds(s, p, i + 1, d);
    }
}

/// `first_from` skips no earlier witness.
proof fn lemma_first_from_before(s: Seq<char>, p: spec_fn(int) -> bool, i: int, d: int, w: int)
    requires
        0 <= i <= w < d,
        first_from(s, p, i) == Some(d),
    ensures
        !p(w),
    decreases w - i,
{
    lemma_first_from_bounds(s, p, i, d);
    assert(!p(i));
    if i < w {
        lemma_first_from_before(s, p, i + 1, d, w);
    }
}

/// The fixed-point value of digit parts lies between 0 and the saturation
/// marker.
proof fn lemma_milli_value_bounds(w: Seq<char>, f: Seq<char>)
    requires
        all_digits(w),
        all_digits(f),
    ensures
        0 <= milli_value(w, f) <= crate::numbers::MILLI_SAT,
{
    lemma_dec_value_nonneg(w);
    if dec_value(w) <= crate::numbers::MILLI_MAX_WHOLE {
        if f.len() >= 3 {
            assert(all_digits(f.subrange(0, 3)));
            lemma_dec_value_nonneg(f.subrange(0, 3));
            crate::numbers::lemma_frac_milli_bound(f);
        } else {
            crate::numbers::lemma_frac_milli_bound(f);
        }
    }
}

/// Parse the damage figure rows of a batch: each row names a system and a
/// signed figure in thousandths.
pub fn parse_damage_control_report(lines: &[String]) -> (r: Vec<(String, i64)>)
    ensures
        ({
            let spec = damage_report_spec(lines.deep_view());
            r@.len() == spec.len() && forall|i: int|
                0 <= i < spec.len() ==> r@[i].0@ == (#[trigger] spec[i]).0 && r@[i].1 == spec[i].1
        }),
{
    let ghost dls = lines.deep_view();
    let mut out: Vec<(String, i64)> = Vec::new();
    let n = lines.len();
    let mut i: usize = 0;
    while i < n
        invariant
            i <= n,
            n == dls.len(),
            dls == lines.deep_view(),
            ({
                let spec = damage_report_spec(dls.subrange(0, i as int));
                out@.len() == spec.len() && forall|j: int|
                    0 <= j < spec.len() ==> out@[j].0@ == (#[trigger] spec[j]).0 && out@[j].1
                        == spec[j].1
            }),
        decreases n - i,
    {
        let line = vstd::slice::slice_index_get(lines, i);
        let v = chars_of(line.as_str());
        proof {
            assert(dls[i as int] == lines@[i as int]@);
            assert(v@ == dls[i as int]);
        }
        let ghost out0 = out@;
        let ghost pre = damage_report_spec(dls.subrange(0, i as int));
        let ghost ent = dmg_entries(dls[i as int]);
        if !contains_lit(&v, "DAMAGE CONTROL REPORT") {
            match dmg_line_exec(&v) {
                Some(entry) => {
                    proof {
                        assert(dmg_line(v@) is Some);
                        assert(ent =~= seq![dmg_line(v@)->Some_0]);
                        assert(ent[0].0 == entry.0@ && ent[0].1 == entry.1);
                    }
                    out.push(entry);
                    proof {
                        assert(out@.len() == out0.len() + 1);
                        assert(forall|j: int| 0 <= j < out0.len() ==> out@[j] == out0[j]);
                        assert(out@[out0.len() as int].0@ == ent[0].0 && out@[out0.len() as int].1
                            == ent[0].1);
                    }
                },
                None => {
                    assert(ent =~= Seq::<(Seq<char>, int)>::empty());
                },
            }
        } else {
            assert(ent =~= Seq::<(Seq<char>, int)>::empty());
        }
        proof {
            assert(dls.subrange(0, i + 1).drop_last() =~= dls.subrange(0, i as int));
            assert(dls.subrange(0, i + 1).last() == dls[i as int]);
            assert(damage_report_spec(dls.subrange(0, i + 1)) == pre + ent);
            assert(out@.len() == pre.len() + ent.len());
            assert forall|j: int| 0 <= j < pre.len() + ent.len() implies out@[j].0@ == (pre
                + ent)[j].0 && out@[j].1 == (pre + ent)[j].1 by {
                if j < pre.len() {
                    assert(out@[j] == out0[j]);
                    assert((pre + ent)[j] == pre[j]);
                    assert(out0[j].0@ == pre[j].0 && out0[j].1 == pre[j].1);
                } else {
                    assert((pre + ent)[j] == ent[j - pre.len()]);
                    assert(out@[j].0@ == ent[j - pre.len()].0 && out@[j].1 == ent[j - pre.len()].1);
                }
            }
        }
        i = i + 1;
    }
    proof {
        assert(dls.subrange(0, n as int) =~= dls);
    }
    out
}

/// The whitespace-separated tokens of `s`, from `i` on.
pub open spec fn split_ws(s: Seq<char>, i: int) -> Seq<Seq<char>>
    decreases s.len() - i, 1int,
{
    if i < 0 || i >= s.len() {
        Seq::empty()
    } else if is_space_char(s[i]) {
        split_ws(s, i + 1)
    } else {
        split_ws_token(s, i)
    }
}

/// A token starts at `i`: take it whole, then continue behind it.
pub open spec fn split_ws_token(s: Seq<char>, i: int) -> Seq<Seq<char>>
    decreases s.len() - i, 0int,
    when 0 <= i < s.len() && !is_space_char(s[i])
    via split_ws_token_dec
{
    seq![s.subrange(i, run_end(s, |c: char| !is_space_char(c), i))] + split_ws(
        s,
        run_end(s, |c: char| !is_space_char(c), i),
    )
}

#[via_fn]
proof fn split_ws_token_dec(s: Seq<char>, i: int) {
    lemma_run_end(s, |c: char| !is_space_char(c), i);
    assert(run_end(s, |c: char| !is_space_char(c), i) > i);
}

/// Split `v` into its whitespace-separated tokens.
fn split_ws_exec(v: &Vec<char>) -> (r: Vec<String>)
    ensures
        r.deep_view() == split_ws(v@, 0),
{
    let n = v.len();
    let mut out: Vec<String> = Vec::new();
    let mut i: usize = 0;
    while i < n
        invariant
            i <= n,
            n == v@.len(),
            out.deep_view() + split_ws(v@, i as int) =~= split_ws(v@, 0),
        decreases n - i,
    {
        let ghost out0 = out.deep_view();
        if crate::text::is_space_c(v[i]) {
            i = i + 1;
        } else {
            let mut e = i;
            while e < n && !crate::text::is_space_c(v[e])
                invariant
                    i <= e <= n,
                    n == v@.len(),
                    forall|k: int| i <= k < e ==> !is_space_char(v@[k]),
                decreases n - e,
            {
                e = e + 1;
            }
            proof {
                lemma_run_end_is(v@, |c: char| !is_space_char(c), i as int, e as int);
            }
            let tok = sub_chars(v, i, e);
            out.push(string_from_chars(&tok));
            proof {
                assert(out.deep_view().len() == out0.len() + 1);
                assert(forall|k: int| 0 <= k < out0.len() ==> out.deep_view()[k] == out0[k]);
                assert(out.deep_view()[out0.len() as int] == tok@);
                assert(out.deep_view() =~= out0.push(tok@));
                assert(run_end(v@, |c: char| !is_space_char(c), i as int) == e as int);
                assert(split_ws(v@, i as int) == split_ws_token(v@, i as int));
                assert(split_ws_token(v@, i as int) == seq![v@.subrange(i as int, e as int)]
                    + split_ws(v@, e as int));
                assert(out.deep_view() + split_ws(v@, e as int) =~= out0 + split_ws(
                    v@,
                    i as int,
                ));
            }
            i = e;
        }
    }
    proof {
        assert(out.deep_view() + split_ws(v@, n as int) =~= out.deep_view());
    }
    out
}

/// The line padded with spaces to a multiple of three characters.
pub open spec fn srs_pad(l: Seq<char>) -> Seq<char> {
    l + Seq::new((((3 - l.len() as int % 3) % 3)) as nat, |i: int| ' ')
}

/// The line split into three-character sector cells.
pub open spec fn srs_cells(l: Seq<char>) -> Seq<Seq<char>> {
    let p = srs_pad(l);
    Seq::new((p.len() / 3) as nat, |r: int| p.subrange(3 * r, 3 * r + 3))
}

/// Whether a line inside a short-range scan is a grid row.
pub open spec fn srs_is_row(l: Seq<char>) -> bool {
    ||| contains_seq(l, "<*>"@)
    ||| contains_seq(l, "+K+"@)
    ||| contains_seq(l, ">!<"@)
    ||| contains_seq(l, " * "@)
}

/// The short-range scan collected from the batch: rows start after the
/// section header and stop at the first blank line once any were seen.
pub open spec fn srs_scan(
    ls: Seq<Seq<char>>,
    i: int,
    in_scan: bool,
    acc: Seq<Seq<Seq<char>>>,
) -> Seq<Seq<Seq<char>>>
    decreases ls.len() - i,
{
    if i < 0 || i >= ls.len() {
        acc
    } else {
        let l = ls[i];
        if contains_seq(l, "SHORT RANGE SENSORS"@) {
            srs_scan(ls, i + 1, true, acc)
        } else if in_scan && srs_is_row(l) {
            srs_scan(ls, i + 1, true, acc.push(srs_cells(l)))
        } else if in_scan && trim_seq(l).len() == 0 && acc.len() > 0 {
            acc
        } else {
            srs_scan(ls, i + 1, in_scan, acc)
        }
    }
}

/// What `parse_short_range_scan` yields.
pub open spec fn short_range_spec(ls: Seq<Seq<char>>) -> Option<Seq<Seq<Seq<char>>>> {
    let g = srs_scan(ls, 0, false, Seq::empty());
    if g.len() == 0 {
        None
    } else {
        Some(g)
    }
}

/// Split one grid line into its cells.
fn srs_cells_exec(v: &Vec<char>) -> (r: Vec<String>)
    ensures
        r.deep_view() == srs_cells(v@),
{
    let n = v.len();
    let mut cs = sub_chars(v, 0, n);
    let ghost pad = (3 - v@.len() as int % 3) % 3;
    proof {
        assert((v@.len() as int + pad) % 3 == 0);
    }
    while cs.len() % 3 != 0
        invariant
            pad == (3 - v@.len() as int % 3) % 3,
            (v@.len() as int + pad) % 3 == 0,
            v@.len() <= cs@.len() <= v@.len() + pad,
            cs@.subrange(0, v@.len() as int) == v@,
            forall|k: int| v@.len() <= k < cs@.len() ==> cs@[k] == ' ',
        decreases v@.len() + pad - cs@.len(),
    {
        proof {
            assert(cs@.len() < v@.len() + pad);
        }
        cs.push(' ');
        proof {
            assert(cs@.subrange(0, v@.len() as int) =~= v@);
        }
    }
    proof {
        assert(cs@.len() == v@.len() + pad);
        assert(cs@ =~= srs_pad(v@));
    }
    let rows = cs.len() / 3;
    let mut out: Vec<String> = Vec::new();
    let mut r: usize = 0;
    while r < rows
        invariant
            r <= rows,
            rows == cs@.len() / 3,
            cs@.len() % 3 == 0,
            cs@ == srs_pad(v@),
            out@.len() == r,
            forall|k: int| 0 <= k < r ==> out@[k]@ == cs@.subrange(3 * k, 3 * k + 3),
        decreases rows - r,
    {
        let cell = sub_chars(&cs, 3 * r, 3 * r + 3);
        out.push(string_from_chars(&cell));
        r = r + 1;
    }
    proof {
        assert(out.deep_view() =~= srs_cells(v@));
    }
    out
}

/// Collect the sector grid of a short-range sensor scan from a batch of
/// lines: fixed-width cells, rows replacing any earlier grid wholesale.
pub fn parse_short_range_scan(lines: &[String]) -> (r: Option<Vec<Vec<String>>>)
    ensures
        ({
            let g = srs_scan(lines.deep_view(), 0, false, Seq::empty());
            match r {
                Some(m) => m.deep_view() == g && g.len() > 0,
                None => g.len() == 0,
            }
        }),
{
    let ghost dls = lines.deep_view();
    let n = lines.len();
    let mut acc: Vec<Vec<String>> = Vec::new();
    proof {
        assert(acc.deep_view() =~= Seq::<Seq<Seq<char>>>::empty());
    }
    let mut in_scan = false;
    let mut i: usize = 0;
    while i < n
        invariant
            i <= n,
            n == dls.len(),
            dls == lines.deep_view(),
            srs_scan(dls, 0, false, Seq::empty()) == srs_scan(dls, i as int, in_scan, acc.deep_view()),
        decreases n - i,
    {
        let ghost acc0 = acc.deep_view();
        let line = vstd::slice::slice_index_get(lines, i);
        let v = chars_of(line.as_str());
        proof {
            assert(v@ == dls[i as int]);
        }
        if contains_lit(&v, "SHORT RANGE SENSORS") {
            in_scan = true;
        } else if in_scan && (contains_lit(&v, "<*>") || contains_lit(&v, "+K+") || contains_lit(
            &v,
            ">!<",
        ) || contains_lit(&v, " * ")) {
            let row = srs_cells_exec(&v);
            let ghost rowd = row.deep_view();
            acc.push(row);
            proof {
                assert(acc.deep_view().len() == acc0.len() + 1);
                assert(forall|k: int| 0 <= k < acc0.len() ==> acc.deep_view()[k] == acc0[k]);
                assert(acc.deep_view()[acc0.len() as int] == rowd);
                assert(acc.deep_view() =~= acc0.push(srs_cells(v@)));
            }
        } else {
            let t = trim_chars(&v);
            if in_scan && t.len() == 0 && acc.len() > 0 {
                proof {
                    assert(srs_scan(dls, i as int, in_scan, acc0) == acc0);
                }
                return Some(acc);
            }
        }
        i = i + 1;
    }
    proof {
        assert(srs_scan(dls, n as int, in_scan, acc.deep_view()) == acc.deep_view());
    }
    if acc.len() == 0 {
        None
    } else {
        Some(acc)
    }
}

/// Whether a line inside a long-range scan is a data row: a colon row of
/// the scan table, or any line longer than ten bytes.
pub open spec fn lrs_is_row(l: Seq<char>) -> bool {
    (contains_seq(l, ":"@) && contains_seq(l, "***"@)) || vstd::utf8::encode_utf8(l).len() > 10
}

/// The tokens between the first and second colon of a row, if the row has
/// a colon and any tokens there.
pub open spec fn lrs_row_tokens(l: Seq<char>) -> Option<Seq<Seq<char>>> {
    match first_from(l, |i: int| l[i] == ':', 0) {
        None => None,
        Some(d1) => {
            let d2 = match first_from(l, |i: int| l[i] == ':', d1 + 1) {
                Some(x) => x,
                None => l.len() as int,
            };
            let t = split_ws(l.subrange(d1 + 1, d2), 0);
            if t.len() > 0 {
                Some(t)
            } else {
                None
            }
        },
    }
}

/// The long-range scan collected from the batch.
pub open spec fn lrs_scan(
    ls: Seq<Seq<char>>,
    i: int,
    in_scan: bool,
    acc: Seq<Seq<Seq<char>>>,
) -> Seq<Seq<Seq<char>>>
    decreases ls.len() - i,
{
    if i < 0 || i >= ls.len() {
        acc
    } else {
        let l = ls[i];
        if contains_seq(l, "LONG RANGE SCAN"@) {
            lrs_scan(ls, i + 1, true, acc)
        } else if in_scan && lrs_is_row(l) {
            let acc2 = match lrs_row_tokens(l) {
                Some(t) => acc.push(t),
                None => acc,
            };
            lrs_scan(ls, i + 1, true, acc2)
        } else if in_scan && contains_seq(l, "---"@) {
            lrs_scan(ls, i + 1, true, acc)
        } else if in_scan && trim_seq(l).len() == 0 && acc.len() > 0 {
            acc
        } else {
            lrs_scan(ls, i + 1, in_scan, acc)
        }
    }
}

/// What `parse_long_range_scan` yields.
pub open spec fn long_range_spec(ls: Seq<Seq<char>>) -> Option<Seq<Seq<Seq<char>>>> {
    let g = lrs_scan(ls, 0, false, Seq::empty());
    if g.len() == 0 {
        None
    } else {
        Some(g)
    }
}

/// The tokens of one long-range row, if any.
fn lrs_row_tokens_exec(v: &Vec<char>) -> (r: Option<Vec<String>>)
    ensures
        match r {
            Some(t) => lrs_row_tokens(v@) matches Some(st) && t.deep_view() == st,
            None => lrs_row_tokens(v@) is None,
        },
{
    let ghost pcolon = |i: int| v@[i] == ':';
    let n = v.len();
    let mut d1: usize = 0;
    while d1 < n && v[d1] != ':'
        invariant
            d1 <= n,
            n == v@.len(),
            forall|k: int| 0 <= k < d1 ==> !#[trigger] pcolon(k),
        decreases n - d1,
    {
        proof {
            assert(!pcolon(d1 as int));
        }
        d1 = d1 + 1;
    }
    if d1 == n {
        proof {
            lemma_first_from_is(v@, pcolon, 0, None);
        }
        return None;
    }
    proof {
        assert(pcolon(d1 as int));
        lemma_first_from_is(v@, pcolon, 0, Some(d1 as int));
    }
    let mut d2: usize = d1 + 1;
    while d2 < n && v[d2] != ':'
        invariant
            d1 + 1 <= d2 <= n,
            n == v@.len(),
            forall|k: int| d1 + 1 <= k < d2 ==> !#[trigger] pcolon(k),
        decreases n - d2,
    {
        proof {
            assert(!pcolon(d2 as int));
        }
        d2 = d2 + 1;
    }
    proof {
        if d2 == n {
            lemma_first_from_is(v@, pcolon, d1 + 1, None);
        } else {
            assert(pcolon(d2 as int));
            lemma_first_from_is(v@, pcolon, d1 + 1, Some(d2 as int));
        }
    }
    let part = sub_chars(v, d1 + 1, d2);
    let toks = split_ws_exec(&part);
    if toks.len() > 0 {
        Some(toks)
    } else {
        None
    }
}

/// Collect the galaxy grid of a long-range scan from a batch of lines:
/// each colon-delimited row yields its whitespace-separated cell tokens.
pub fn parse_long_range_scan(lines: &[String]) -> (r: Option<Vec<Vec<String>>>)
    ensures
        ({
            let g = lrs_scan(lines.deep_view(), 0, false, Seq::empty());
            match r {
                Some(m) => m.deep_view() == g && g.len() > 0,
                None => g.len() == 0,
            }
        }),
{
    let ghost dls = lines.deep_view();
    let n = lines.len();
    let mut acc: Vec<Vec<String>> = Vec::new();
    proof {
        assert(acc.deep_view() =~= Seq::<Seq<Seq<char>>>::empty());
    }
    let mut in_scan = false;
    let mut i: usize = 0;
    while i < n
        invariant
            i <= n,
            n == dls.len(),
            dls == lines.deep_view(),
            lrs_scan(dls, 0, false, Seq::empty()) == lrs_scan(dls, i as int, in_scan, acc.deep_view()),
        decreases n - i,
    {
        let ghost acc0 = acc.deep_view();
        let line = vstd::slice::slice_index_get(lines, i);
        let v = chars_of(line.as_str());
        proof {
            assert(v@ == dls[i as int]);
        }
        if contains_lit(&v, "LONG RANGE SCAN") {
            in_scan = true;
        } else if in_scan && ((contains_lit(&v, ":") && contains_lit(&v, "***"))
            || line.as_str().as_bytes().len() > 10) {
            assert(lrs_is_row(v@));
            match lrs_row_tokens_exec(&v) {
                Some(t) => {
                    let ghost td = t.deep_view();
                    acc.push(t);
                    proof {
                        assert(acc.deep_view().len() == acc0.len() + 1);
                        assert(forall|k: int| 0 <= k < acc0.len() ==> acc.deep_view()[k] == acc0[
                            k
                        ]);
                        assert(acc.deep_view()[acc0.len() as int] == td);
                        assert(acc.deep_view() =~= acc0.push(td));
                    }
                },
                None => {},
            }
        } else if in_scan && contains_lit(&v, "---") {
        } else {
            let t = trim_chars(&v);
            if in_scan && t.len() == 0 && acc.len() > 0 {
                proof {
                    assert(lrs_scan(dls, i as int, in_scan, acc0) == acc0);
                }
                return Some(acc);
            }
        }
        i = i + 1;
    }
    proof {
        assert(lrs_scan(dls, n as int, in_scan, acc.deep_view()) == acc.deep_view());
    }
    if acc.len() == 0 {
        None
    } else {
        Some(acc)
    }
}

/// A galactic-record row matches with its first coordinate at `i`: digits,
/// a comma, digits, whitespace and at least one more character.
pub open spec fn gr_at(l: Seq<char>, i: int) -> bool {
    0 <= i < l.len() && is_digit_char(l[i]) && {
        let e1 = digits_end(l, i);
        e1 < l.len() && l[e1] == ',' && e1 + 1 < l.len() && is_digit_char(l[e1 + 1]) && {
            let e2 = digits_end(l, e1 + 1);
            e2 < l.len() && is_space_char(l[e2]) && e2 + 1 < l.len()
        }
    }
}

/// The value of a digit run, or zero when it overflows an `i32`.
pub open spec fn val_or_zero(s: Seq<char>) -> int {
    if dec_value(s) <= i32::MAX {
        dec_value(s)
    } else {
        0
    }
}

/// What one line contributes to the galactic record.
pub open spec fn gr_line(l: Seq<char>) -> Option<(int, int, Seq<char>)> {
    if contains_seq(l, "GALACTIC RECORD"@) {
        None
    } else {
        match first_from(l, |i: int| gr_at(l, i), 0) {
            None => None,
            Some(i) => {
                let e1 = digits_end(l, i);
                let e2 = digits_end(l, e1 + 1);
                Some(
                    (
                        val_or_zero(l.subrange(i, e1)),
                        val_or_zero(l.subrange(e1 + 1, e2)),
                        trim_seq(l.subrange(e2 + 1, l.len() as int)),
                    ),
                )
            },
        }
    }
}

/// What `parse_galactic_record` yields over a whole batch.
pub open spec fn galactic_record_spec(ls: Seq<Seq<char>>) -> Seq<(int, int, Seq<char>)>
    decreases ls.len(),
{
    if ls.len() == 0 {
        Seq::empty()
    } else {
        galactic_record_spec(ls.drop_last()) + match gr_line(ls.last()) {
            Some(e) => seq![e],
            None => Seq::empty(),
        }
    }
}

fn gr_at_exec(v: &Vec<char>, i: usize) -> (r: bool)
    requires
        i <= v@.len(),
    ensures
        r == gr_at(v@, i as int),
{
    if !(i < v.len() && crate::text::is_digit(v[i])) {
        return false;
    }
    let e1 = skip_digits(v, i);
    if !(e1 < v.len() && v[e1] == ',') {
        return false;
    }
    if !(e1 + 1 < v.len() && crate::text::is_digit(v[e1 + 1])) {
        return false;
    }
    let e2 = skip_digits(v, e1 + 1);
    e2 < v.len() && crate::text::is_space_c(v[e2]) && e2 + 1 < v.len()
}

/// The record entry of one line, if any.
fn gr_line_exec(v: &Vec<char>) -> (r: Option<(i32, i32, String)>)
    ensures
        match r {
            Some(e) => gr_line(v@) matches Some(se) && se.0 == e.0 as int && se.1 == e.1 as int
                && se.2 == e.2@,
            None => gr_line(v@) is None,
        },
{
    if contains_lit(v, "GALACTIC RECORD") {
        return None;
    }
    let ghost pg = |i: int| gr_at(v@, i);
    let n = v.len();
    let mut i: usize = 0;
    while i < n
        invariant
            i <= n,
            n == v@.len(),
            forall|j: int| 0 <= j < i ==> !#[trigger] pg(j),
        decreases n - i,
    {
        if gr_at_exec(v, i) {
            proof {
                assert(pg(i as int));
                lemma_first_from_is(v@, pg, 0, Some(i as int));
            }
            let e1 = skip_digits(v, i);
            let e2 = skip_digits(v, e1 + 1);
            proof {
                assert(all_digits(v@.subrange(i as int, e1 as int)));
                assert(all_digits(v@.subrange(e1 + 1, e2 as int)));
                lemma_dec_value_nonneg(v@.subrange(i as int, e1 as int));
                lemma_dec_value_nonneg(v@.subrange(e1 + 1, e2 as int));
            }
            let q1 = match parse_i32_digits(v, i, e1) {
                Some(x) => x,
                None => 0,
            };
            let q2 = match parse_i32_digits(v, e1 + 1, e2) {
                Some(x) => x,
                None => 0,
            };
            let raw = sub_chars(v, e2 + 1, v.len());
            let data = trim_chars(&raw);
            return Some((q1, q2, string_from_chars(&data)));
        }
        proof {
            assert(!pg(i as int));
        }
        i = i + 1;
    }
    proof {
        lemma_first_from_is(v@, pg, 0, None);
    }
    None
}

/// Parse the rows of a galactic record: quadrant coordinates and the text
/// that follows them.
pub fn parse_galactic_record(lines: &[String]) -> (r: Option<Vec<(i32, i32, String)>>)
    ensures
        ({
            let spec = galactic_record_spec(lines.deep_view());
            match r {
                Some(m) => spec.len() > 0 && m@.len() == spec.len() && forall|j: int|
                    0 <= j < spec.len() ==> m@[j].0 == (#[trigger] spec[j]).0 && m@[j].1
                        == spec[j].1 && m@[j].2@ == spec[j].2,
                None => spec.len() == 0,
            }
        }),
{
    let ghost dls = lines.deep_view();
    let mut out: Vec<(i32, i32, String)> = Vec::new();
    let n = lines.len();
    let mut i: usize = 0;
    while i < n
        invariant
            i <= n,
            n == dls.len(),
            dls == lines.deep_view(),
            ({
                let spec = galactic_record_spec(dls.subrange(0, i as int));
                out@.len() == spec.len() && forall|j: int|
                    0 <= j < spec.len() ==> out@[j].0 == (#[trigger] spec[j]).0 && out@[j].1
                        == spec[j].1 && out@[j].2@ == spec[j].2
            }),
        decreases n - i,
    {
        let ghost out0 = out@;
        let ghost pre = galactic_record_spec(dls.subrange(0, i as int));
        let ghost ent = match gr_line(dls[i as int]) {
            Some(e) => seq![e],
            None => Seq::<(int, int, Seq<char>)>::empty(),
        };
        let line = vstd::slice::slice_index_get(lines, i);
        let v = chars_of(line.as_str());
        proof {
            assert(v@ == dls[i as int]);
        }
        match gr_line_exec(&v) {
            Some(entry) => {
                proof {
                    assert(ent =~= seq![gr_line(v@)->Some_0]);
                    assert(ent[0].0 == entry.0 as int && ent[0].1 == entry.1 as int && ent[0].2
                        == entry.2@);
                }
                out.push(entry);
                proof {
                    assert(out@.len() == out0.len() + 1);
                    assert(forall|j: int| 0 <= j < out0.len() ==> out@[j] == out0[j]);
                    assert(out@[out0.len() as int].0 == ent[0].0 && out@[out0.len() as int].1
                        == ent[0].1 && out@[out0.len() as int].2@ == ent[0].2);
                }
            },
            None => {
                assert(ent =~= Seq::<(int, int, Seq<char>)>::empty());
            },
        }
        proof {
            assert(dls.subrange(0, i + 1).drop_last() =~= dls.subrange(0, i as int));
            assert(dls.subrange(0, i + 1).last() == dls[i as int]);
            assert(galactic_record_spec(dls.subrange(0, i + 1)) == pre + ent);
            assert(out@.len() == pre.len() + ent.len());
            assert forall|j: int| 0 <= j < pre.len() + ent.len() implies out@[j].0 == (pre
                + ent)[j].0 && out@[j].1 == (pre + ent)[j].1 && out@[j].2@ == (pre + ent)[j].2 by {
                if j < pre.len() {
                    assert(out@[j] == out0[j]);
                    assert((pre + ent)[j] == pre[j]);
                    assert(out0[j].0 == pre[j].0 && out0[j].1 == pre[j].1 && out0[j].2@
                        == pre[j].2);
                } else {
                    assert((pre + ent)[j] == ent[j - pre.len()]);
                }
            }
        }
        i = i + 1;
    }
    proof {
        assert(dls.subrange(0, n as int) =~= dls);
    }
    if out.len() == 0 {
        None
    } else {
        Some(out)
    }
}

/// The damage entry of one line, if any.
fn dmg_line_exec(v: &Vec<char>) -> (r: Option<(String, i64)>)
    ensures
        match r {
            Some(e) => dmg_line(v@) matches Some(se) && se.0 == e.0@ && se.1 == e.1,
            None => dmg_line(v@) is None,
        },
{
    let ghost pc = |c: int| dmg_c(v@, c);
    let n = v.len();
    let mut c: usize = 0;
    while c < n
        invariant
            c <= n,
            n == v@.len(),
            forall|j: int| 0 <= j < c ==> !#[trigger] pc(j),
        decreases n - c,
    {
        let hit = c >= 2 && figure_c(v[c]) && crate::text::is_space_c(v[c - 1])
            && crate::scan::is_name_c(v[c - 2]);
        if hit {
            proof {
                assert(pc(c as int));
                lemma_first_from_is(v@, pc, 0, Some(c as int));
            }
            let mut p: usize = c;
            while p > 0 && crate::scan::is_name_c(v[p - 1])
                invariant
                    p <= c,
                    forall|k: int| p <= k < c ==> name_char(v@[k]),
                decreases p,
            {
                p = p - 1;
            }
            proof {
                lemma_run_start_is(v@, |ch: char| name_char(ch), c as int, p as int);
            }
            let raw = sub_chars(v, p, c - 1);
            let name = trim_chars(&raw);
            let mut c2: usize = c;
            while c2 < n && figure_c(v[c2])
                invariant
                    c <= c2 <= n,
                    n == v@.len(),
                    forall|k: int| c <= k < c2 ==> figure_char(v@[k]),
                decreases n - c2,
            {
                c2 = c2 + 1;
            }
            proof {
                lemma_run_end_is(v@, |ch: char| figure_char(ch), c as int, c2 as int);
            }
            let tok = sub_chars(v, c, c2);
            match tok_value_exec(&tok) {
                Some(m) => {
                    return Some((string_from_chars(&name), m));
                },
                None => {
                    return None;
                },
            }
        }
        proof {
            assert(!pc(c as int));
        }
        c = c + 1;
    }
    proof {
        lemma_first_from_is(v@, pc, 0, None);
    }
    None
}

} // verus!
