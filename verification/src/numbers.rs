//! Decimal numerals: the value of a digit run, bounded parsing, rendering an
//! integer as its decimal digits, and a thousandths fixed-point form for the
//! fractional quantities that appear in the game's output.

use vstd::prelude::*;
use crate::text::is_digit_char;

verus! {

/// The numeric value of one decimal digit character.
pub open spec fn digit_val(c: char) -> int {
    c as u32 - 48
}

/// Every character of `s` is a decimal digit.
pub open spec fn all_digits(s: Seq<char>) -> bool {
    forall|i: int| 0 <= i < s.len() ==> is_digit_char(s[i])
}

/// The value of a digit run read in base ten; 0 for the empty run.
pub open spec fn dec_value(s: Seq<char>) -> int
    decreases s.len(),
{
    if s.len() == 0 {
        0
    } else {
        dec_value(s.drop_last()) * 10 + digit_val(s.last())
    }
}

pub proof fn lemma_dec_value_nonneg(s: Seq<char>)
    requires
        all_digits(s),
    ensures
        dec_value(s) >= 0,
    decreases s.len(),
{
    if s.len() > 0 {
        assert(all_digits(s.drop_last()));
        lemma_dec_value_nonneg(s.drop_last());
    }
}

/// Extending a digit run to the right never decreases its value.
pub proof fn lemma_dec_value_prefix_le(s: Seq<char>, i: int, j: int)
    requires
        all_digits(s),
        0 <= i <= j <= s.len(),
    ensures
        dec_value(s.subrange(0, i)) <= dec_value(s.subrange(0, j)),
    decreases j - i,
{
    if i < j {
        let t = s.subrange(0, j);
        assert(all_digits(t));
        assert(t.drop_last() =~= s.subrange(0, j - 1));
        lemma_dec_value_nonneg(s.subrange(0, j - 1));
        assert(dec_value(s.subrange(0, j - 1)) <= dec_value(t));
        lemma_dec_value_prefix_le(s, i, j - 1);
    }
}

/// The value of the digits `v[from..to]`, if it does not exceed `cap`.
pub fn dec_value_capped(v: &Vec<char>, from: usize, to: usize, cap: u64) -> (r: Option<u64>)
    requires
        from <= to <= v@.len(),
        all_digits(v@.subrange(from as int, to as int)),
        cap <= 0xffff_ffff,
    ensures
        dec_value(v@.subrange(from as int, to as int)) <= cap ==> r == Some(
            dec_value(v@.subrange(from as int, to as int)) as u64,
        ),
        dec_value(v@.subrange(from as int, to as int)) > cap ==> r is None,
{
    let ghost s = v@.subrange(from as int, to as int);
    let mut acc: u64 = 0;
    let mut i: usize = from;
    while i < to
        invariant
            from <= i <= to <= v@.len(),
            s == v@.subrange(from as int, to as int),
            all_digits(s),
            cap <= 0xffff_ffff,
            acc == dec_value(s.subrange(0, i - from)),
            acc <= cap,
        decreases to - i,
    {
        let c = v[i];
        assert(s[i - from] == v@[i as int]);
        assert(is_digit_char(c));
        let d = (c as u32 - 48) as u64;
        let next = acc * 10 + d;
        proof {
            assert(s.subrange(0, i + 1 - from).drop_last() =~= s.subrange(0, i - from));
            assert(s.subrange(0, i + 1 - from).last() == c);
        }
        if next > cap {
            proof {
                lemma_dec_value_prefix_le(s, i + 1 - from, s.len() as int);
                assert(s.subrange(0, s.len() as int) =~= s);
            }
            return None;
        }
        acc = next;
        i = i + 1;
    }
    proof {
        assert(s.subrange(0, s.len() as int) =~= s);
    }
    Some(acc)
}

/// What `str::parse::<i32>` yields on a nonempty run of digits: the value,
/// unless it exceeds `i32::MAX`.
pub open spec fn parsed_i32(s: Seq<char>) -> Option<int> {
    if dec_value(s) <= i32::MAX {
        Some(dec_value(s))
    } else {
        None
    }
}

/// Parse the digits `v[from..to]` as an `i32`.
pub fn parse_i32_digits(v: &Vec<char>, from: usize, to: usize) -> (r: Option<i32>)
    requires
        from <= to <= v@.len(),
        all_digits(v@.subrange(from as int, to as int)),
    ensures
        match r {
            Some(n) => parsed_i32(v@.subrange(from as int, to as int)) == Some(n as int),
            None => parsed_i32(v@.subrange(from as int, to as int)) is None,
        },
{
    proof {
        lemma_dec_value_nonneg(v@.subrange(from as int, to as int));
    }
    match dec_value_capped(v, from, to, 0x7fff_ffff) {
        Some(n) => Some(n as i32),
        None => None,
    }
}

/// The character of one decimal digit value.
pub open spec fn digit_char(d: int) -> char {
    ((48 + d) as u8) as char
}

/// The decimal numeral of `n`, most significant digit first.
pub open spec fn dec_digits(n: int) -> Seq<char>
    decreases n,
{
    if n < 10 {
        seq![digit_char(n)]
    } else {
        dec_digits(n / 10).push(digit_char(n % 10))
    }
}

/// Append the decimal numeral of `n` to `out`.
pub fn push_dec_u32(n: u32, out: &mut Vec<char>)
    ensures
        final(out)@ == old(out)@ + dec_digits(n as int),
    decreases n,
{
    if n < 10 {
        out.push((48 + n as u8) as char);
        assert(final(out)@ =~= old(out)@ + dec_digits(n as int));
    } else {
        push_dec_u32(n / 10, out);
        out.push((48 + (n % 10) as u8) as char);
        assert(final(out)@ =~= old(out)@ + dec_digits(n as int));
    }
}

/// Relies on `Iterator::collect` for `String`: it builds the string from
/// exactly the characters of `v`, in order.
#[verifier::external_body]
pub fn string_from_chars(v: &Vec<char>) -> (s: String)
    ensures
        s@ == v@,
{
    v.iter().collect()
}

/// The decimal numeral of `n` as a string.
pub fn u32_dec_string(n: u32) -> (s: String)
    ensures
        s@ == dec_digits(n as int),
{
    let mut out: Vec<char> = Vec::new();
    push_dec_u32(n, &mut out);
    string_from_chars(&out)
}

/// Whole values too wide for the fixed-point form saturate to this marker.
pub const MILLI_SAT: i64 = 1_000_000_000_000;

/// Whole parts above this saturate.
pub const MILLI_MAX_WHOLE: u64 = 999_999_999;

/// The first three fractional digits, scaled to thousandths; fewer digits
/// count as if right-padded with zeros, later digits are dropped.
pub open spec fn frac_milli(f: Seq<char>) -> int {
    if f.len() >= 3 {
        dec_value(f.subrange(0, 3))
    } else if f.len() == 2 {
        dec_value(f) * 10
    } else if f.len() == 1 {
        dec_value(f) * 100
    } else {
        0
    }
}

/// The thousandths fixed-point value of a decimal numeral with integer
/// digits `w` and fractional digits `f`; saturates at `MILLI_SAT`.
pub open spec fn milli_value(w: Seq<char>, f: Seq<char>) -> int {
    if dec_value(w) > MILLI_MAX_WHOLE {
        MILLI_SAT as int
    } else {
        dec_value(w) * 1000 + frac_milli(f)
    }
}

/// Compute the fixed-point value of digits `v[w0..w1]` (integer part) and
/// `v[f0..f1]` (fractional part).
pub fn milli_of_digits(v: &Vec<char>, w0: usize, w1: usize, f0: usize, f1: usize) -> (r: i64)
    requires
        w0 <= w1 <= v@.len(),
        f0 <= f1 <= v@.len(),
        all_digits(v@.subrange(w0 as int, w1 as int)),
        all_digits(v@.subrange(f0 as int, f1 as int)),
    ensures
        r == milli_value(v@.subrange(w0 as int, w1 as int), v@.subrange(f0 as int, f1 as int)),
{
    let ghost w = v@.subrange(w0 as int, w1 as int);
    let ghost f = v@.subrange(f0 as int, f1 as int);
    let whole = match dec_value_capped(v, w0, w1, 999_999_999) {
        Some(n) => n,
        None => {
            return MILLI_SAT;
        },
    };
    let fr: u64 = if f1 - f0 >= 3 {
        proof {
            assert(all_digits(f.subrange(0, 3)));
            assert(f.subrange(0, 3) =~= v@.subrange(f0 as int, f0 + 3));
        }
        proof {
            lemma_dec_value_nonneg(f.subrange(0, 3));
        }
        match dec_value_capped(v, f0, f0 + 3, 999) {
            Some(n) => n,
            None => {
                proof {
                    lemma_dec_value_bound3(f.subrange(0, 3));
                }
                0
            },
        }
    } else {
        proof {
            lemma_dec_value_short(f);
            lemma_dec_value_nonneg(f);
        }
        match dec_value_capped(v, f0, f1, 99) {
            Some(n) => {
                if f1 - f0 == 2 {
                    n * 10
                } else if f1 - f0 == 1 {
                    n * 100
                } else {
                    n
                }
            },
            None => 0,
        }
    };
    proof {
        lemma_dec_value_nonneg(w);
    }
    (whole as i64) * 1000 + (fr as i64)
}

/// The scaled fractional part is below one thousand.
pub proof fn lemma_frac_milli_bound(f: Seq<char>)
    requires
        all_digits(f),
    ensures
        0 <= frac_milli(f) <= 999,
{
    if f.len() >= 3 {
        assert(all_digits(f.subrange(0, 3)));
        lemma_dec_value_nonneg(f.subrange(0, 3));
        lemma_dec_value_bound3(f.subrange(0, 3));
    } else if f.len() == 2 {
        lemma_dec_value_nonneg(f);
        lemma_dec_value_short(f);
    } else if f.len() == 1 {
        lemma_dec_value_nonneg(f);
        assert(f.drop_last().len() == 0);
        assert(dec_value(f.drop_last()) == 0);
        assert(is_digit_char(f[f.len() - 1]));
        assert(dec_value(f) == digit_val(f.last()));
    }
}

/// A short digit run is bounded: at most `n` digits stay below `10^n`.
proof fn lemma_dec_value_bound3(s: Seq<char>)
    requires
        all_digits(s),
        s.len() <= 3,
    ensures
        dec_value(s) <= 999,
    decreases s.len(),
{
    if s.len() > 0 {
        let t = s.drop_last();
        assert(all_digits(t));
        lemma_dec_value_short(t);
        assert(is_digit_char(s[s.len() - 1]));
        assert(digit_val(s.last()) <= 9);
    }
}

/// A run of at most two digits is below 100.
proof fn lemma_dec_value_short(s: Seq<char>)
    requires
        all_digits(s),
        s.len() <= 2,
    ensures
        dec_value(s) <= 99,
    decreases s.len(),
{
    if s.len() > 0 {
        let t = s.drop_last();
        assert(all_digits(t));
        if t.len() > 0 {
            let u = t.drop_last();
            assert(u.len() == 0);
            assert(dec_value(u) == 0);
            assert(is_digit_char(t[t.len() - 1]));
            assert(dec_value(t) == digit_val(t.last()));
            assert(dec_value(t) <= 9);
        } else {
            assert(dec_value(t) == 0);
        }
        assert(is_digit_char(s[s.len() - 1]));
        assert(digit_val(s.last()) <= 9);
        assert(dec_value(s) == dec_value(t) * 10 + digit_val(s.last()));
    }
}

} // verus!
