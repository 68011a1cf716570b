//! Reading decimal texts ("12,5", "-3.25", "40") as fixed-point values with
//! six decimals, the unit in which every record holds its values.
use vstd::prelude::*;
use crate::keys::{blank, is_blank};

verus! {

/// The number of decimals kept.
pub const DECIMALS: usize = 6;

/// One unit of the fixed-point scale.
pub const UNIT: i64 = 1_000_000;

pub open spec fn is_digit(c: char) -> bool {
    '0' <= c && c <= '9'
}

pub open spec fn all_digits(s: Seq<char>) -> bool {
    forall|i: int| 0 <= i < s.len() ==> is_digit(#[trigger] s[i])
}

pub open spec fn digit_value(c: char) -> int {
    (c as int) - ('0' as int)
}

/// The value of a run of decimal digits.
pub open spec fn digits_value(s: Seq<char>) -> int
    decreases s.len(),
{
    if s.len() == 0 {
        0
    } else {
        digits_value(s.drop_last()) * 10 + digit_value(s.last())
    }
}

pub open spec fn pow10(n: nat) -> int
    decreases n,
{
    if n == 0 {
        1
    } else {
        10 * pow10((n - 1) as nat)
    }
}

/// The value of the digits after the separator, in millionths: the first six
/// digits count, the others are cut off.
pub open spec fn fraction_value(f: Seq<char>) -> int {
    let kept = if f.len() < 6 {
        f.len()
    } else {
        6
    };
    digits_value(f.take(kept as int)) * pow10((6 - kept) as nat)
}

/// Where the decimal separator (`.` or `,`) stands, or the length when there
/// is none.
pub open spec fn separator_at(s: Seq<char>) -> int
    decreases s.len(),
{
    if s.len() == 0 {
        0
    } else if s[0] == '.' || s[0] == ',' {
        0
    } else {
        1 + separator_at(s.drop_first())
    }
}

/// The value in millionths that a decimal text denotes: an optional `-`, at
/// least one digit, then optionally a separator and more digits.
pub open spec fn decimal_value(s: Seq<char>) -> Option<int> {
    let neg = s.len() > 0 && s[0] == '-';
    let body = if neg {
        s.drop_first()
    } else {
        s
    };
    let p = separator_at(body);
    let whole = body.take(p);
    let frac = if p < body.len() {
        body.skip(p + 1)
    } else {
        Seq::empty()
    };
    if whole.len() > 0 && all_digits(whole) && all_digits(frac) {
        let v = digits_value(whole) * 1_000_000 + fraction_value(frac);
        Some(
            if neg {
                -v
            } else {
                v
            },
        )
    } else {
        None
    }
}

/// What a cell of the table holds: nothing when it is blank, else its value
/// when that is a decimal that fits.
pub open spec fn cell_value(s: Seq<char>) -> Option<i64> {
    if is_blank(s) {
        None
    } else {
        match decimal_value(s) {
            Some(v) => if i64::MIN <= v <= i64::MAX {
                Some(v as i64)
            } else {
                None
            },
            None => None,
        }
    }
}

proof fn lemma_digits_step(s: Seq<char>, i: int)
    requires
        0 <= i < s.len(),
    ensures
        digits_value(s.take(i + 1)) == digits_value(s.take(i)) * 10 + digit_value(s[i]),
{
    assert(s.take(i + 1).drop_last() =~= s.take(i));
}

proof fn lemma_digits_nonneg(s: Seq<char>)
    requires
        all_digits(s),
    ensures
        digits_value(s) >= 0,
    decreases s.len(),
{
    if s.len() > 0 {
        assert(all_digits(s.drop_last())) by {
            assert forall|i: int| 0 <= i < s.drop_last().len() implies is_digit(
                #[trigger] s.drop_last()[i],
            ) by {
                assert(s.drop_last()[i] == s[i]);
            }
        }
        lemma_digits_nonneg(s.drop_last());
        assert(is_digit(s[s.len() - 1]));
    }
}

proof fn lemma_digits_grow(s: Seq<char>, i: int, j: int)
    requires
        0 <= i <= j <= s.len(),
        all_digits(s),
    ensures
        digits_value(s.take(j)) >= digits_value(s.take(i)),
    decreases j - i,
{
    if j > i {
        lemma_digits_grow(s, i, j - 1);
        lemma_digits_step(s, j - 1);
        assert(all_digits(s.take(j - 1))) by {
            assert forall|t: int| 0 <= t < s.take(j - 1).len() implies is_digit(
                #[trigger] s.take(j - 1)[t],
            ) by {
                assert(s.take(j - 1)[t] == s[t]);
            }
        }
        lemma_digits_nonneg(s.take(j - 1));
        assert(is_digit(s[j - 1]));
    }
}

proof fn lemma_separator_at(s: Seq<char>, p: int)
    requires
        0 <= p <= s.len(),
        forall|t: int| 0 <= t < p ==> s[t] != '.' && s[t] != ',',
        p == s.len() || s[p] == '.' || s[p] == ',',
    ensures
        separator_at(s) == p,
    decreases p,
{
    if p > 0 {
        lemma_separator_at(s.drop_first(), p - 1);
    }
}

proof fn lemma_digits_bound(s: Seq<char>)
    requires
        all_digits(s),
    ensures
        0 <= digits_value(s) < pow10(s.len()),
    decreases s.len(),
{
    if s.len() > 0 {
        assert(all_digits(s.drop_last())) by {
            assert forall|i: int| 0 <= i < s.drop_last().len() implies is_digit(
                #[trigger] s.drop_last()[i],
            ) by {
                assert(s.drop_last()[i] == s[i]);
            }
        }
        lemma_digits_bound(s.drop_last());
        assert(is_digit(s[s.len() - 1]));
    }
}

proof fn lemma_all_digits_sub(s: Seq<char>, a: int, b: int)
    requires
        all_digits(s),
        0 <= a <= b <= s.len(),
    ensures
        all_digits(s.subrange(a, b)),
{
    assert forall|t: int| 0 <= t < s.subrange(a, b).len() implies is_digit(
        #[trigger] s.subrange(a, b)[t],
    ) by {
        assert(s.subrange(a, b)[t] == s[a + t]);
    }
}

/// Whether the characters of `s` from `from` to `to` are all digits.
fn digits_only(s: &Vec<char>, from: usize, to: usize) -> (r: bool)
    requires
        from <= to <= s@.len(),
    ensures
        r == all_digits(s@.subrange(from as int, to as int)),
{
    let mut i: usize = from;
    while i < to
        invariant
            from <= i <= to <= s@.len(),
            forall|t: int| from <= t < i ==> is_digit(#[trigger] s@[t]),
        decreases to - i,
    {
        if !('0' <= s[i] && s[i] <= '9') {
            assert(s@.subrange(from as int, to as int)[i - from] == s@[i as int]);
            return false;
        }
        i = i + 1;
    }
    assert forall|t: int| 0 <= t < s@.subrange(from as int, to as int).len() implies is_digit(
        #[trigger] s@.subrange(from as int, to as int)[t],
    ) by {
        assert(s@.subrange(from as int, to as int)[t] == s@[from + t]);
    }
    true
}

/// Reads the digits of `s` from `from` to `to` as a number, or `None` when one
/// of them is no digit or the number passes `limit`.
fn read_digits(s: &Vec<char>, from: usize, to: usize, limit: u64) -> (r: Option<u64>)
    requires
        from <= to <= s@.len(),
        9 <= limit <= 0x7fff_ffff_ffff_ffff,
    ensures
        match r {
            Some(v) => all_digits(s@.subrange(from as int, to as int)) && v == digits_value(
                s@.subrange(from as int, to as int),
            ) && v <= limit,
            None => !all_digits(s@.subrange(from as int, to as int)) || digits_value(
                s@.subrange(from as int, to as int),
            ) > limit,
        },
{
    let ghost run = s@.subrange(from as int, to as int);
    let mut acc: u64 = 0;
    let mut i: usize = from;
    assert(run.take(0) =~= Seq::<char>::empty());
    while i < to
        invariant
            from <= i <= to <= s@.len(),
            run == s@.subrange(from as int, to as int),
            9 <= limit <= 0x7fff_ffff_ffff_ffff,
            all_digits(run.take(i - from)),
            acc == digits_value(run.take(i - from)),
            acc <= limit,
        decreases to - i,
    {
        let c = s[i];
        if !('0' <= c && c <= '9') {
            assert(run[i - from] == c);
            return None;
        }
        let d = (c as u64) - ('0' as u64);
        proof {
            lemma_digits_step(run, i - from);
            assert(run[i - from] == c);
            assert(all_digits(run.take(i - from + 1))) by {
                assert forall|t: int| 0 <= t < run.take(i - from + 1).len() implies is_digit(
                    #[trigger] run.take(i - from + 1)[t],
                ) by {
                    if t < i - from {
                        assert(run.take(i - from + 1)[t] == run.take(i - from)[t]);
                    }
                }
            }
        }
        if acc > (limit - d) / 10 {
            proof {
                let (a, dd, l) = (acc as int, d as int, limit as int);
                assert(a * 10 + dd > l) by (nonlinear_arith)
                    requires
                        a > (l - dd) / 10,
                        0 <= dd <= 9,
                        l >= 9,
                ;
                if all_digits(run) {
                    lemma_digits_grow(run, i - from + 1, run.len() as int);
                    assert(run.take(run.len() as int) =~= run);
                }
            }
            return None;
        }
        proof {
            let (a, dd, l) = (acc as int, d as int, limit as int);
            assert(a * 10 + dd <= l) by (nonlinear_arith)
                requires
                    a <= (l - dd) / 10,
                    0 <= dd <= 9,
                    l >= 9,
            ;
        }
        acc = acc * 10 + d;
        i = i + 1;
    }
    assert(run.take(i - from) =~= run);
    Some(acc)
}

/// `10` to the power of the decimals that a fraction of `kept` digits lacks.
fn fill_scale(kept: usize) -> (r: u64)
    requires
        kept <= 6,
    ensures
        r == pow10((6 - kept) as nat),
        r <= 1_000_000,
{
    proof {
        reveal_with_fuel(pow10, 7);
    }
    if kept == 0 {
        1_000_000
    } else if kept == 1 {
        100_000
    } else if kept == 2 {
        10_000
    } else if kept == 3 {
        1_000
    } else if kept == 4 {
        100
    } else if kept == 5 {
        10
    } else {
        1
    }
}

/// The value in millionths of the digits of `s` after `fend`.
fn read_fraction(s: &Vec<char>, fend: usize) -> (r: u64)
    requires
        fend <= s@.len(),
        all_digits(s@.subrange(fend as int, s@.len() as int)),
    ensures
        r == fraction_value(s@.subrange(fend as int, s@.len() as int)),
        r < 1_000_000,
{
    let ghost frac_s = s@.subrange(fend as int, s@.len() as int);
    let kept: usize = if s.len() - fend < DECIMALS { s.len() - fend } else { DECIMALS };
    let ghost kept_s = s@.subrange(fend as int, (fend + kept) as int);
    proof {
        assert(frac_s.take(kept as int) =~= kept_s);
        lemma_all_digits_sub(frac_s, 0, kept as int);
        assert(frac_s.subrange(0, kept as int) =~= kept_s);
        lemma_digits_bound(kept_s);
        reveal_with_fuel(pow10, 7);
        assert(pow10(kept as nat) <= 1_000_000);
    }
    let frac = match read_digits(&s, fend, fend + kept, 999_999) {
        Some(f) => f,
        None => {
            assert(false);
            0
        },
    };
    let fill = fill_scale(kept);
    proof {
        reveal_with_fuel(pow10, 7);
        let (f, m) = (frac as int, fill as int);
        assert(f * m < 1_000_000) by (nonlinear_arith)
            requires
                (kept == 0 && f < 1 && m == 1_000_000) || (kept == 1 && f < 10 && m == 100_000) || (
                kept == 2 && f < 100 && m == 10_000) || (kept == 3 && f < 1_000 && m == 1_000) || (
                kept == 4 && f < 10_000 && m == 100) || (kept == 5 && f < 100_000 && m == 10) || (
                kept == 6 && f < 1_000_000 && m == 1),
                f >= 0,
        ;
    }
    frac * fill
}

proof fn lemma_decimal_parts(s: Seq<char>, start: int, p: int, fend: int)
    requires
        start == (if s.len() > 0 && s[0] == '-' { 1int } else { 0int }),
        start <= p <= s.len(),
        forall|t: int| start <= t < p ==> s[t] != '.' && s[t] != ',',
        p == s.len() || s[p] == '.' || s[p] == ',',
        fend == (if p < s.len() { p + 1 } else { p }),
    ensures
        decimal_value(s) == if p > start && all_digits(s.subrange(start, p)) && all_digits(
            s.subrange(fend, s.len() as int),
        ) {
            let v = digits_value(s.subrange(start, p)) * 1_000_000 + fraction_value(
                s.subrange(fend, s.len() as int),
            );
            Some(
                if start == 1 {
                    -v
                } else {
                    v
                },
            )
        } else {
            None::<int>
        },
{
    let body = if start == 1 { s.drop_first() } else { s };
    assert(body =~= s.skip(start));
    assert forall|t: int| 0 <= t < p - start implies body[t] != '.' && body[t] != ',' by {
        assert(body[t] == s[start + t]);
    }
    lemma_separator_at(body, p - start);
    assert(body.take(p - start) =~= s.subrange(start, p));
    if p < s.len() {
        assert(body.skip(p - start + 1) =~= s.subrange(fend, s.len() as int));
    } else {
        assert(s.subrange(fend, s.len() as int) =~= Seq::<char>::empty());
    }
}

/// Reads a cell of the table: `None` when it is blank, is no decimal, or does
/// not fit.
pub fn clean_and_parse(value: &str) -> (r: Option<i64>)
    ensures
        r == cell_value(value@),
{
    if blank(value) {
        return None;
    }
    let s = crate::keys::chars_of(value);
    let neg = s.len() > 0 && s[0] == '-';
    let start: usize = if neg { 1 } else { 0 };
    let mut p: usize = start;
    while p < s.len() && s[p] != '.' && s[p] != ','
        invariant
            start <= p <= s@.len(),
            forall|t: int| start <= t < p ==> s@[t] != '.' && s@[t] != ',',
        decreases s.len() - p,
    {
        p = p + 1;
    }
    let fend: usize = if p < s.len() { p + 1 } else { p };
    proof {
        lemma_decimal_parts(s@, start as int, p as int, fend as int);
    }
    if p == start || !digits_only(&s, start, p) || !digits_only(&s, fend, s.len()) {
        return None;
    }
    let scaled = read_fraction(&s, fend);
    let whole = match read_digits(&s, start, p, 9_223_372_036_854) {
        Some(w) => w,
        None => {
            proof {
                let w = digits_value(s@.subrange(start as int, p as int));
                assert(w * 1_000_000 >= 9_223_372_036_855 * 1_000_000) by (nonlinear_arith)
                    requires
                        w >= 9_223_372_036_855,
                ;
            }
            return None;
        },
    };
    let v: i128 = (whole as i128) * 1_000_000 + (scaled as i128);
    let r: i128 = if neg { 0 - v } else { v };
    if r < i64::MIN as i128 || r > i64::MAX as i128 {
        return None;
    }
    Some(r as i64)
}

} // verus!
