//! Per-line field extractors for the game state: each reads one fact from
//! one line of output, or nothing. A field is overwritten only when a line
//! yields a reading; a reading whose number overflows is skipped.

use vstd::prelude::*;
use crate::text::{is_space_char, is_digit_char, matches_at, trim_seq, chars_of,
    trim_chars};
use crate::scan::{ws_end, digits_end, name_end, first_from, last_until, run_start, skip_ws,
    skip_digits, skip_name, lemma_run_end, lemma_first_from_is,
    lemma_last_until_is, lemma_run_start_is};
use crate::numbers::{all_digits, parsed_i32, parse_i32_digits, string_from_chars,
    lemma_dec_value_nonneg};
use crate::parser::{name_char, val_or_zero};

verus! {

/// After position `a`: optional whitespace, an optional `=` or `:`, more
/// optional whitespace, then a digit. The digit's position, or -1.
pub open spec fn opt_sep_digits(s: Seq<char>, a: int) -> int {
    let b = ws_end(s, a);
    let c = if b < s.len() && (s[b] == '=' || s[b] == ':') {
        b + 1
    } else {
        b
    };
    let d = ws_end(s, c);
    if d < s.len() && is_digit_char(s[d]) {
        d
    } else {
        -1
    }
}

/// Find the digit position that `opt_sep_digits` describes.
fn find_opt_sep_digits(v: &Vec<char>, a: usize) -> (r: Option<usize>)
    requires
        a <= v@.len(),
    ensures
        match r {
            Some(d) => opt_sep_digits(v@, a as int) == d as int && d < v@.len(),
            None => opt_sep_digits(v@, a as int) < 0,
        },
{
    let b = skip_ws(v, a);
    let c = if b < v.len() && (v[b] == '=' || v[b] == ':') {
        b + 1
    } else {
        b
    };
    let d = skip_ws(v, c);
    if d < v.len() && crate::text::is_digit(v[d]) {
        Some(d)
    } else {
        None
    }
}

/// The pattern "literal, optional separator, digits" matches at `i`.
pub open spec fn lit_num_at(s: Seq<char>, lit: Seq<char>, i: int) -> bool {
    matches_at(s, lit, i) && opt_sep_digits(s, i + lit.len()) >= 0
}

/// The number read by the leftmost "literal, optional separator, digits"
/// match, unless it overflows an `i32`.
pub open spec fn lit_num_value(s: Seq<char>, lit: Seq<char>) -> Option<int> {
    match first_from(s, |i: int| lit_num_at(s, lit, i), 0) {
        Some(i) => {
            let d = opt_sep_digits(s, i + lit.len());
            parsed_i32(s.subrange(d, digits_end(s, d)))
        },
        None => None,
    }
}

/// Scan a line for "literal, optional separator, digits" and read the
/// number.
pub fn lit_num_exec(v: &Vec<char>, lit: &Vec<char>) -> (r: Option<i32>)
    ensures
        match r {
            Some(x) => lit_num_value(v@, lit@) == Some(x as int),
            None => lit_num_value(v@, lit@) is None,
        },
{
    let ghost p = |i: int| lit_num_at(v@, lit@, i);
    let n = v.len();
    let mut i: usize = 0;
    while i < n
        invariant
            i <= n,
            n == v@.len(),
            forall|j: int| 0 <= j < i ==> !#[trigger] p(j),
        decreases n - i,
    {
        let hit = lit.len() <= n - i && crate::text::match_at(v, lit, i) && find_opt_sep_digits(
            v,
            i + lit.len(),
        ).is_some();
        if hit {
            proof {
                assert(p(i as int));
                lemma_first_from_is(v@, p, 0, Some(i as int));
            }
            let d = match find_opt_sep_digits(v, i + lit.len()) {
                Some(d) => d,
                None => {
                    assert(false);
                    0
                },
            };
            let e = skip_digits(v, d);
            proof {
                assert(all_digits(v@.subrange(d as int, e as int)));
            }
            return parse_i32_digits(v, d, e);
        }
        proof {
            assert(!p(i as int));
        }
        i = i + 1;
    }
    proof {
        lemma_first_from_is(v@, p, 0, None);
    }
    None
}

/// The shields report pattern matches at `i`: SHIELDS NOW AT, digits,
/// UNITS.
pub open spec fn shields_now_at(s: Seq<char>, i: int) -> bool {
    matches_at(s, "SHIELDS NOW AT"@, i) && {
        let d = ws_end(s, i + "SHIELDS NOW AT"@.len());
        d < s.len() && is_digit_char(s[d]) && {
            let f = ws_end(s, digits_end(s, d));
            matches_at(s, "UNITS"@, f)
        }
    }
}

/// The number read by the leftmost shields report, unless it overflows.
pub open spec fn shields_now_value(s: Seq<char>) -> Option<int> {
    match first_from(s, |i: int| shields_now_at(s, i), 0) {
        Some(i) => {
            let d = ws_end(s, i + "SHIELDS NOW AT"@.len());
            parsed_i32(s.subrange(d, digits_end(s, d)))
        },
        None => None,
    }
}

fn shields_now_exec(v: &Vec<char>) -> (r: Option<i32>)
    ensures
        match r {
            Some(x) => shields_now_value(v@) == Some(x as int),
            None => shields_now_value(v@) is None,
        },
{
    let ghost p = |i: int| shields_now_at(v@, i);
    let lit = chars_of("SHIELDS NOW AT");
    let units = chars_of("UNITS");
    let n = v.len();
    let mut i: usize = 0;
    while i < n
        invariant
            i <= n,
            n == v@.len(),
            lit@ == "SHIELDS NOW AT"@,
            units@ == "UNITS"@,
            forall|j: int| 0 <= j < i ==> !#[trigger] p(j),
        decreases n - i,
    {
        let mut hit = false;
        let mut d: usize = 0;
        if lit.len() <= n - i && crate::text::match_at(v, &lit, i) {
            d = skip_ws(v, i + lit.len());
            if d < n && crate::text::is_digit(v[d]) {
                let e = skip_digits(v, d);
                let f = skip_ws(v, e);
                if units.len() <= n - f && crate::text::match_at(v, &units, f) {
                    hit = true;
                }
            }
        }
        if hit {
            proof {
                assert(p(i as int));
                lemma_first_from_is(v@, p, 0, Some(i as int));
            }
            let e = skip_digits(v, d);
            proof {
                assert(all_digits(v@.subrange(d as int, e as int)));
            }
            return parse_i32_digits(v, d, e);
        }
        proof {
            assert(!p(i as int));
        }
        i = i + 1;
    }
    proof {
        lemma_first_from_is(v@, p, 0, None);
    }
    None
}

/// What one line says about energy: the energy-available phrasing wins
/// over the plain one.
pub open spec fn energy_of_line(l: Seq<char>) -> Option<int> {
    if crate::parser::energy_available_spec(l) is Some {
        crate::parser::energy_available_spec(l)
    } else {
        lit_num_value(l, "ENERGY"@)
    }
}

/// Read the energy figure of one line.
pub fn extract_energy(v: &Vec<char>, line: &str) -> (r: Option<i32>)
    requires
        v@ == line@,
    ensures
        match r {
            Some(x) => energy_of_line(line@) == Some(x as int),
            None => energy_of_line(line@) is None,
        },
{
    let lit = chars_of("ENERGY");
    let base = lit_num_exec(v, &lit);
    match crate::parser::parse_energy_available(line) {
        Some(x) => Some(x),
        None => base,
    }
}

/// What one line says about shields: the report phrasing wins over the
/// plain one.
pub open spec fn shields_of_line(l: Seq<char>) -> Option<int> {
    if shields_now_value(l) is Some {
        shields_now_value(l)
    } else {
        lit_num_value(l, "SHIELDS"@)
    }
}

/// Read the shields figure of one line.
pub fn extract_shields(v: &Vec<char>) -> (r: Option<i32>)
    ensures
        match r {
            Some(x) => shields_of_line(v@) == Some(x as int),
            None => shields_of_line(v@) is None,
        },
{
    let lit = chars_of("SHIELDS");
    let base = lit_num_exec(v, &lit);
    match shields_now_exec(v) {
        Some(x) => Some(x),
        None => base,
    }
}

/// What one line says about the torpedo count.
pub open spec fn torpedoes_of_line(l: Seq<char>) -> Option<int> {
    lit_num_value(l, "TORPEDOES"@)
}

/// What one line says about the stardate.
pub open spec fn stardate_of_line(l: Seq<char>) -> Option<int> {
    lit_num_value(l, "STARDATE"@)
}

/// The time pattern matches at `i`: TIME, a required `=` or `:`, digits.
pub open spec fn time_at(s: Seq<char>, i: int) -> bool {
    matches_at(s, "TIME"@, i) && {
        let b = ws_end(s, i + "TIME"@.len());
        b < s.len() && (s[b] == '=' || s[b] == ':') && {
            let d = ws_end(s, b + 1);
            d < s.len() && is_digit_char(s[d])
        }
    }
}

/// What one line says about the remaining time.
pub open spec fn time_of_line(l: Seq<char>) -> Option<int> {
    match first_from(l, |i: int| time_at(l, i), 0) {
        Some(i) => {
            let d = ws_end(l, ws_end(l, i + "TIME"@.len()) + 1);
            parsed_i32(l.subrange(d, digits_end(l, d)))
        },
        None => None,
    }
}

/// Read the remaining-time figure of one line.
pub fn extract_time(v: &Vec<char>) -> (r: Option<i32>)
    ensures
        match r {
            Some(x) => time_of_line(v@) == Some(x as int),
            None => time_of_line(v@) is None,
        },
{
    let ghost p = |i: int| time_at(v@, i);
    let lit = chars_of("TIME");
    let n = v.len();
    let mut i: usize = 0;
    while i < n
        invariant
            i <= n,
            n == v@.len(),
            lit@ == "TIME"@,
            forall|j: int| 0 <= j < i ==> !#[trigger] p(j),
        decreases n - i,
    {
        let mut hit = false;
        let mut d: usize = 0;
        if lit.len() <= n - i && crate::text::match_at(v, &lit, i) {
            let b = skip_ws(v, i + lit.len());
            if b < n && (v[b] == '=' || v[b] == ':') {
                d = skip_ws(v, b + 1);
                if d < n && crate::text::is_digit(v[d]) {
                    hit = true;
                }
            }
        }
        if hit {
            proof {
                assert(p(i as int));
                lemma_first_from_is(v@, p, 0, Some(i as int));
            }
            let e = skip_digits(v, d);
            proof {
                assert(all_digits(v@.subrange(d as int, e as int)));
            }
            return parse_i32_digits(v, d, e);
        }
        proof {
            assert(!p(i as int));
        }
        i = i + 1;
    }
    proof {
        lemma_first_from_is(v@, p, 0, None);
    }
    None
}

/// The first enemies-remaining phrasing matches at `i`: KLINGON, an
/// optional S, whitespace, REMAINING, whitespace, digits.
pub open spec fn klingons_a_at(s: Seq<char>, i: int) -> bool {
    matches_at(s, "KLINGON"@, i) && {
        let a = i + "KLINGON"@.len();
        let a2 = if a < s.len() && s[a] == 'S' {
            a + 1
        } else {
            a
        };
        let b = ws_end(s, a2);
        b > a2 && matches_at(s, "REMAINING"@, b) && {
            let d = ws_end(s, b + "REMAINING"@.len());
            b + "REMAINING"@.len() < d && d < s.len() && is_digit_char(s[d])
        }
    }
}

/// The digit position of the first phrasing's match at `i`.
pub open spec fn klingons_a_digits(s: Seq<char>, i: int) -> int {
    let a = i + "KLINGON"@.len();
    let a2 = if a < s.len() && s[a] == 'S' {
        a + 1
    } else {
        a
    };
    let b = ws_end(s, a2);
    ws_end(s, b + "REMAINING"@.len())
}

/// The second phrasing matches at `i`: digits, optional whitespace,
/// KLINGON.
pub open spec fn klingons_b_at(s: Seq<char>, i: int) -> bool {
    0 <= i < s.len() && is_digit_char(s[i]) && matches_at(
        s,
        "KLINGON"@,
        ws_end(s, digits_end(s, i)),
    )
}

/// What one line says about the enemies remaining: the first phrasing
/// wins; a reading that overflows is skipped.
pub open spec fn klingons_of_line(l: Seq<char>) -> Option<int> {
    match first_from(l, |i: int| klingons_a_at(l, i), 0) {
        Some(i) => {
            let d = klingons_a_digits(l, i);
            parsed_i32(l.subrange(d, digits_end(l, d)))
        },
        None => match first_from(l, |i: int| klingons_b_at(l, i), 0) {
            Some(i) => parsed_i32(l.subrange(i, digits_end(l, i))),
            None => None,
        },
    }
}

fn klingons_a_exec(v: &Vec<char>) -> (r: (bool, usize))
    ensures
        ({
            let fa = first_from(v@, |i: int| klingons_a_at(v@, i), 0);
            if r.0 {
                fa is Some && r.1 as int == klingons_a_digits(v@, fa->Some_0) && r.1 < v@.len()
            } else {
                fa is None
            }
        }),
{
    let ghost p = |i: int| klingons_a_at(v@, i);
    let lit = chars_of("KLINGON");
    let rem = chars_of("REMAINING");
    let n = v.len();
    let mut i: usize = 0;
    while i < n
        invariant
            i <= n,
            n == v@.len(),
            lit@ == "KLINGON"@,
            rem@ == "REMAINING"@,
            forall|j: int| 0 <= j < i ==> !#[trigger] p(j),
        decreases n - i,
    {
        let mut hit = false;
        let mut d: usize = 0;
        if lit.len() <= n - i && crate::text::match_at(v, &lit, i) {
            let a = i + lit.len();
            let a2 = if a < n && v[a] == 'S' {
                a + 1
            } else {
                a
            };
            let b = skip_ws(v, a2);
            if b > a2 && rem.len() <= n - b && crate::text::match_at(v, &rem, b) {
                d = skip_ws(v, b + rem.len());
                if d > b + rem.len() && d < n && crate::text::is_digit(v[d]) {
                    hit = true;
                }
            }
        }
        if hit {
            proof {
                assert(p(i as int));
                lemma_first_from_is(v@, p, 0, Some(i as int));
            }
            return (true, d);
        }
        proof {
            assert(!p(i as int));
        }
        i = i + 1;
    }
    proof {
        lemma_first_from_is(v@, p, 0, None);
    }
    (false, 0)
}

/// Read the enemies-remaining figure of one line.
pub fn extract_klingons(v: &Vec<char>) -> (r: Option<i32>)
    ensures
        match r {
            Some(x) => klingons_of_line(v@) == Some(x as int),
            None => klingons_of_line(v@) is None,
        },
{
    let (ok_a, d) = klingons_a_exec(v);
    if ok_a {
        let e = skip_digits(v, d);
        proof {
            assert(all_digits(v@.subrange(d as int, e as int)));
        }
        return parse_i32_digits(v, d, e);
    }
    let ghost p = |i: int| klingons_b_at(v@, i);
    let lit = chars_of("KLINGON");
    let n = v.len();
    let mut i: usize = 0;
    while i < n
        invariant
            i <= n,
            n == v@.len(),
            lit@ == "KLINGON"@,
            first_from(v@, |i: int| klingons_a_at(v@, i), 0) is None,
            forall|j: int| 0 <= j < i ==> !#[trigger] p(j),
        decreases n - i,
    {
        let mut hit = false;
        if crate::text::is_digit(v[i]) {
            let e = skip_digits(v, i);
            let w = skip_ws(v, e);
            if lit.len() <= n - w && crate::text::match_at(v, &lit, w) {
                hit = true;
            }
        }
        if hit {
            proof {
                assert(p(i as int));
                lemma_first_from_is(v@, p, 0, Some(i as int));
            }
            let e = skip_digits(v, i);
            proof {
                assert(all_digits(v@.subrange(i as int, e as int)));
            }
            return parse_i32_digits(v, i, e);
        }
        proof {
            assert(!p(i as int));
        }
        i = i + 1;
    }
    proof {
        lemma_first_from_is(v@, p, 0, None);
    }
    None
}

/// The pattern "literal, optional separator, digits, comma, digits"
/// matches at `i`.
pub open spec fn lit_pair_at(s: Seq<char>, lit: Seq<char>, i: int) -> bool {
    matches_at(s, lit, i) && {
        let d = opt_sep_digits(s, i + lit.len());
        d >= 0 && {
            let f = ws_end(s, digits_end(s, d));
            f < s.len() && s[f] == ',' && {
                let g = ws_end(s, f + 1);
                g < s.len() && is_digit_char(s[g])
            }
        }
    }
}

/// The coordinate pair read by the leftmost match; a coordinate that
/// overflows an `i32` reads as zero.
pub open spec fn lit_pair_value(s: Seq<char>, lit: Seq<char>) -> Option<(int, int)> {
    match first_from(s, |i: int| lit_pair_at(s, lit, i), 0) {
        Some(i) => {
            let d = opt_sep_digits(s, i + lit.len());
            let g = ws_end(s, ws_end(s, digits_end(s, d)) + 1);
            Some(
                (
                    val_or_zero(s.subrange(d, digits_end(s, d))),
                    val_or_zero(s.subrange(g, digits_end(s, g))),
                ),
            )
        },
        None => None,
    }
}

/// Scan a line for "literal, digits, comma, digits" and read the pair.
pub fn lit_pair_exec(v: &Vec<char>, lit: &Vec<char>) -> (r: Option<(i32, i32)>)
    ensures
        match r {
            Some(x) => lit_pair_value(v@, lit@) == Some((x.0 as int, x.1 as int)),
            None => lit_pair_value(v@, lit@) is None,
        },
{
    let ghost p = |i: int| lit_pair_at(v@, lit@, i);
    let n = v.len();
    let mut i: usize = 0;
    while i < n
        invariant
            i <= n,
            n == v@.len(),
            forall|j: int| 0 <= j < i ==> !#[trigger] p(j),
        decreases n - i,
    {
        let mut hit = false;
        let mut d: usize = 0;
        let mut g: usize = 0;
        if lit.len() <= n - i && crate::text::match_at(v, lit, i) {
            match find_opt_sep_digits(v, i + lit.len()) {
                Some(dd) => {
                    let e = skip_digits(v, dd);
                    let f = skip_ws(v, e);
                    if f < n && v[f] == ',' {
                        let gg = skip_ws(v, f + 1);
                        if gg < n && crate::text::is_digit(v[gg]) {
                            hit = true;
                            d = dd;
                            g = gg;
                        }
                    }
                },
                None => {},
            }
        }
        if hit {
            proof {
                assert(p(i as int));
                lemma_first_from_is(v@, p, 0, Some(i as int));
            }
            let e1 = skip_digits(v, d);
            let e2 = skip_digits(v, g);
            proof {
                assert(all_digits(v@.subrange(d as int, e1 as int)));
                assert(all_digits(v@.subrange(g as int, e2 as int)));
                lemma_dec_value_nonneg(v@.subrange(d as int, e1 as int));
                lemma_dec_value_nonneg(v@.subrange(g as int, e2 as int));
            }
            let x = match parse_i32_digits(v, d, e1) {
                Some(x) => x,
                None => 0,
            };
            let y = match parse_i32_digits(v, g, e2) {
                Some(y) => y,
                None => 0,
            };
            return Some((x, y));
        }
        proof {
            assert(!p(i as int));
        }
        i = i + 1;
    }
    proof {
        lemma_first_from_is(v@, p, 0, None);
    }
    None
}

/// One of the damage keywords stands at `k`.
pub open spec fn kw_at(s: Seq<char>, k: int) -> bool {
    ||| matches_at(s, "DAMAGED"@, k)
    ||| matches_at(s, "INOPERABLE"@, k)
    ||| matches_at(s, "REPAIR"@, k)
}

/// The damage value the keyword at `k` stands for.
pub open spec fn kw_value(s: Seq<char>, k: int) -> int {
    if matches_at(s, "DAMAGED"@, k) {
        -1
    } else if matches_at(s, "INOPERABLE"@, k) {
        -2
    } else {
        0
    }
}

/// A damage keyword at `k` closes a system name: whitespace stands just
/// before it and a name character before that.
pub open spec fn dk_valid(s: Seq<char>, k: int) -> bool {
    k >= 2 && is_space_char(s[k - 1]) && name_char(s[k - 2]) && kw_at(s, k)
}

/// What one line says about a system's damage: the name running up to the
/// last keyword of the name run holding the first keyword, and that
/// keyword's value.
pub open spec fn dmg_sys_line(l: Seq<char>) -> Option<(Seq<char>, int)> {
    match first_from(l, |k: int| dk_valid(l, k), 0) {
        None => None,
        Some(k0) => {
            let p0 = run_start(l, |c: char| name_char(c), k0);
            match last_until(|k: int| dk_valid(l, k), name_end(l, p0), k0) {
                Some(k) => Some((trim_seq(l.subrange(p0, k - 1)), kw_value(l, k))),
                None => Some((trim_seq(l.subrange(p0, k0 - 1)), kw_value(l, k0))),
            }
        },
    }
}

fn dk_valid_exec(v: &Vec<char>, k: usize) -> (r: bool)
    requires
        k <= v@.len(),
    ensures
        r == dk_valid(v@, k as int),
{
    if k < 2 {
        return false;
    }
    if !(crate::text::is_space_c(v[k - 1]) && crate::scan::is_name_c(v[k - 2])) {
        return false;
    }
    let n = v.len();
    let d = chars_of("DAMAGED");
    let ino = chars_of("INOPERABLE");
    let rep = chars_of("REPAIR");
    (d.len() <= n - k && crate::text::match_at(v, &d, k)) || (ino.len() <= n - k
        && crate::text::match_at(v, &ino, k)) || (rep.len() <= n - k && crate::text::match_at(
        v,
        &rep,
        k,
    ))
}

fn kw_value_exec(v: &Vec<char>, k: usize) -> (r: i32)
    requires
        k <= v@.len(),
    ensures
        r as int == kw_value(v@, k as int),
{
    let n = v.len();
    let d = chars_of("DAMAGED");
    if d.len() <= n - k && crate::text::match_at(v, &d, k) {
        return -1;
    }
    let ino = chars_of("INOPERABLE");
    if ino.len() <= n - k && crate::text::match_at(v, &ino, k) {
        return -2;
    }
    0
}

/// Read the system-damage entry of one line, if any.
pub fn extract_damage(v: &Vec<char>) -> (r: Option<(String, i32)>)
    ensures
        match r {
            Some(e) => dmg_sys_line(v@) matches Some(se) && se.0 == e.0@ && se.1 == e.1 as int,
            None => dmg_sys_line(v@) is None,
        },
{
    let ghost p = |k: int| dk_valid(v@, k);
    let n = v.len();
    let mut k0: usize = 0;
    while k0 < n
        invariant
            k0 <= n,
            n == v@.len(),
            forall|j: int| 0 <= j < k0 ==> !#[trigger] p(j),
        decreases n - k0,
    {
        if dk_valid_exec(v, k0) {
            proof {
                assert(p(k0 as int));
                lemma_first_from_is(v@, p, 0, Some(k0 as int));
            }
            let mut q: usize = k0;
            while q > 0 && crate::scan::is_name_c(v[q - 1])
                invariant
                    q <= k0,
                    k0 <= n == v@.len(),
                    forall|j: int| q <= j < k0 ==> name_char(v@[j]),
                decreases q,
            {
                q = q - 1;
            }
            proof {
                lemma_run_start_is(v@, |c: char| name_char(c), k0 as int, q as int);
            }
            let ne = skip_name(v, q);
            proof {
                lemma_run_end(v@, |c: char| crate::text::is_upper_char(c) || is_space_char(c), q as int);
                if (ne as int) < k0 as int {
                    assert(name_char(v@[ne as int]));
                    assert(!(crate::text::is_upper_char(v@[ne as int]) || is_space_char(
                        v@[ne as int],
                    )));
                    assert(false);
                }
            }
            let mut k = ne;
            loop
                invariant
                    k0 <= k <= ne,
                    ne == name_end(v@, q as int),
                    k0 <= n == v@.len(),
                    ne <= n,
                    forall|m: int| k < m <= ne ==> !#[trigger] p(m),
                decreases k - k0,
            {
                if dk_valid_exec(v, k) {
                    proof {
                        assert(p(k as int));
                        lemma_last_until_is(p, ne as int, k0 as int, Some(k as int));
                    }
                    let raw = sub_chars(v, q, k - 1);
                    let name = trim_chars(&raw);
                    let value = kw_value_exec(v, k);
                    return Some((string_from_chars(&name), value));
                }
                proof {
                    assert(!p(k as int));
                    if k == k0 {
                        assert(false);
                    }
                }
                k = k - 1;
            }
        }
        proof {
            assert(!p(k0 as int));
        }
        k0 = k0 + 1;
    }
    proof {
        lemma_first_from_is(v@, p, 0, None);
    }
    None
}

/// The characters `v[a..b]`, as a vector.
fn sub_chars(v: &Vec<char>, a: usize, b: usize) -> (r: Vec<char>)
    requires
        a <= b <= v@.len(),
    ensures
        r@ == v@.subrange(a as int, b as int),
{
    let mut out: Vec<char> = Vec::new();
    let mut i = a;
    while i < b
        invariant
            a <= i <= b <= v@.len(),
            out@ == v@.subrange(a as int, i as int),
        decreases b - i,
    {
        out.push(v[i]);
        i = i + 1;
        assert(out@ =~= v@.subrange(a as int, i as int));
    }
    out
}

/// What one line says about the current quadrant.
pub open spec fn quadrant_of_line(l: Seq<char>) -> Option<(int, int)> {
    lit_pair_value(l, "QUADRANT"@)
}

/// What one line says about the current sector.
pub open spec fn sector_of_line(l: Seq<char>) -> Option<(int, int)> {
    lit_pair_value(l, "SECTOR"@)
}

} // verus!
