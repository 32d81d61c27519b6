//! Decimal numbers as fixed-point ticks.
//!
//! A number is written as digits, or as digits, a point and one to eight
//! more digits. Its value is counted in ticks of a hundred-millionth.

use vstd::prelude::*;
use vstd::string::StringSliceAdditionalSpecFns;

verus! {

/// How many digits may follow the point.
pub const PRICE_DECIMALS: usize = 8;

/// How many ticks make one unit.
pub const PRICE_SCALE: u64 = 100_000_000;

const POINT: u8 = 46;

const ZERO: u8 = 48;

const NINE: u8 = 57;

/// Why a text is not taken as a number.
#[derive(Debug, Clone, Copy, PartialEq, Eq)]
pub enum DecimalError {
    /// The text is not written as a decimal number.
    Malformed,
    /// The number has more ticks than 64 bits can count.
    TooLarge,
}

/// The bytes `0` to `9`.
pub open spec fn is_digit(b: u8) -> bool {
    48 <= b <= 57
}

/// Every byte of `s` is a digit.
pub open spec fn all_digits(s: Seq<u8>) -> bool {
    forall|i: int| 0 <= i < s.len() ==> is_digit(#[trigger] s[i])
}

/// What the digit `b` counts.
pub open spec fn digit_of(b: u8) -> nat {
    if b >= 48 {
        (b - 48) as nat
    } else {
        0
    }
}

/// The number that the digits `s` write, the first digit counting most.
pub open spec fn digits_value(s: Seq<u8>) -> nat
    decreases s.len(),
{
    if s.len() == 0 {
        0
    } else {
        digits_value(s.drop_last()) * 10 + digit_of(s.last())
    }
}

/// Ten to the power of `n`.
pub open spec fn pow10(n: nat) -> nat
    decreases n,
{
    if n == 0 {
        1
    } else {
        10 * pow10((n - 1) as nat)
    }
}

/// Where the first point of `s` stands, or the length of `s` where it has
/// none.
pub open spec fn point_at(s: Seq<u8>) -> nat
    decreases s.len(),
{
    if s.len() == 0 || s[0] == 46 {
        0
    } else {
        1 + point_at(s.drop_first())
    }
}

/// What stands before the first point.
pub open spec fn whole_part(s: Seq<u8>) -> Seq<u8> {
    s.take(point_at(s) as int)
}

/// What stands behind the first point.
pub open spec fn frac_part(s: Seq<u8>) -> Seq<u8> {
    if point_at(s) < s.len() {
        s.skip(point_at(s) as int + 1)
    } else {
        Seq::empty()
    }
}

/// `s` is written as a decimal number: digits, then nothing more or a
/// point and one to eight digits.
pub open spec fn well_formed(s: Seq<u8>) -> bool {
    &&& whole_part(s).len() > 0
    &&& all_digits(whole_part(s))
    &&& all_digits(frac_part(s))
    &&& frac_part(s).len() <= PRICE_DECIMALS
    &&& point_at(s) < s.len() ==> frac_part(s).len() > 0
}

/// The ticks of the decimal number `s`.
pub open spec fn decimal_ticks(s: Seq<u8>) -> nat {
    (digits_value(whole_part(s)) * PRICE_SCALE + digits_value(frac_part(s)) * pow10(
        (PRICE_DECIMALS - frac_part(s).len()) as nat,
    )) as nat
}

/// What reading `s` as a number gives.
pub open spec fn parse_verdict(s: Seq<u8>) -> Result<u64, DecimalError> {
    if !well_formed(s) {
        Err(DecimalError::Malformed)
    } else if decimal_ticks(s) > u64::MAX {
        Err(DecimalError::TooLarge)
    } else {
        Ok(decimal_ticks(s) as u64)
    }
}

/// `point_at` is the first position that holds a point.
pub proof fn lemma_point_at(s: Seq<u8>, p: int)
    requires
        0 <= p <= s.len(),
        forall|k: int| 0 <= k < p ==> s[k] != 46,
        p < s.len() ==> s[p] == 46,
    ensures
        point_at(s) == p,
    decreases s.len(),
{
    if s.len() == 0 || s[0] == 46 {
    } else {
        let r = s.drop_first();
        assert forall|k: int| 0 <= k < p - 1 implies r[k] != 46 by {
            assert(r[k] == s[k + 1]);
        }
        lemma_point_at(r, p - 1);
    }
}

/// More digits never write a smaller number.
pub proof fn lemma_digits_prefix(s: Seq<u8>, k: int)
    requires
        0 <= k <= s.len(),
    ensures
        digits_value(s.take(k)) <= digits_value(s),
    decreases s.len(),
{
    if k == s.len() {
        assert(s.take(k) == s);
    } else {
        lemma_digits_prefix(s.drop_last(), k);
        assert(s.drop_last().take(k) == s.take(k));
    }
}

/// The powers of ten up to the eighth.
pub proof fn lemma_pow10_small(n: nat)
    requires
        n <= 8,
    ensures
        1 <= pow10(n) <= 100_000_000,
        n < 8 ==> pow10(n) <= 10_000_000,
        pow10(8) == 100_000_000,
{
    reveal_with_fuel(pow10, 10);
}

/// Whether the bytes of `s` from `lo` up to `hi` are digits.
fn digits_in(s: &[u8], lo: usize, hi: usize) -> (b: bool)
    requires
        lo <= hi <= s@.len(),
    ensures
        b == all_digits(s@.subrange(lo as int, hi as int)),
{
    let mut i: usize = lo;
    while i < hi
        invariant
            lo <= i <= hi <= s@.len(),
            all_digits(s@.subrange(lo as int, i as int)),
        decreases hi - i,
    {
        if s[i] < ZERO || s[i] > NINE {
            proof {
                assert(s@.subrange(lo as int, hi as int)[i - lo] == s@[i as int]);
            }
            return false;
        }
        proof {
            let t = s@.subrange(lo as int, i + 1);
            assert forall|k: int| 0 <= k < t.len() implies is_digit(#[trigger] t[k]) by {
                if k < i - lo {
                    assert(t[k] == s@.subrange(lo as int, i as int)[k]);
                }
            }
        }
        i += 1;
    }
    true
}

/// The number that the digits of `s` from `lo` up to `hi` write, where 64
/// bits hold it.
fn value_in(s: &[u8], lo: usize, hi: usize) -> (v: Option<u64>)
    requires
        lo <= hi <= s@.len(),
        all_digits(s@.subrange(lo as int, hi as int)),
    ensures
        match v {
            Some(n) => n == digits_value(s@.subrange(lo as int, hi as int)),
            None => digits_value(s@.subrange(lo as int, hi as int)) > u64::MAX,
        },
{
    let ghost all = s@.subrange(lo as int, hi as int);
    let mut acc: u64 = 0;
    let mut i: usize = lo;
    while i < hi
        invariant
            lo <= i <= hi <= s@.len(),
            all == s@.subrange(lo as int, hi as int),
            all_digits(all),
            acc == digits_value(s@.subrange(lo as int, i as int)),
        decreases hi - i,
    {
        assert(is_digit(all[i - lo]) && all[i - lo] == s@[i as int]);
        let d: u64 = (s[i] - ZERO) as u64;
        proof {
            let next = s@.subrange(lo as int, i + 1);
            assert(next.drop_last() == s@.subrange(lo as int, i as int));
            assert(digits_value(next) == acc * 10 + d);
            assert(all.take(i + 1 - lo) == next);
            lemma_digits_prefix(all, i + 1 - lo);
        }
        if acc > (u64::MAX - d) / 10 {
            return None;
        }
        acc = acc * 10 + d;
        i += 1;
    }
    Some(acc)
}

/// The ticks that the digits of `s` from `lo` up to `hi` count where they
/// stand right behind the point.
fn frac_in(s: &[u8], lo: usize, hi: usize) -> (v: u64)
    requires
        lo <= hi <= s@.len(),
        hi - lo <= PRICE_DECIMALS,
        all_digits(s@.subrange(lo as int, hi as int)),
    ensures
        v == digits_value(s@.subrange(lo as int, hi as int)) * pow10(
            (PRICE_DECIMALS - (hi - lo)) as nat,
        ),
        v < PRICE_SCALE,
{
    let ghost all = s@.subrange(lo as int, hi as int);
    let mut acc: u64 = 0;
    let mut i: usize = lo;
    while i < hi
        invariant
            lo <= i <= hi <= s@.len(),
            hi - lo <= PRICE_DECIMALS,
            all == s@.subrange(lo as int, hi as int),
            all_digits(all),
            acc == digits_value(s@.subrange(lo as int, i as int)),
            acc < pow10((i - lo) as nat),
        decreases hi - i,
    {
        assert(is_digit(all[i - lo]) && all[i - lo] == s@[i as int]);
        let d: u64 = (s[i] - ZERO) as u64;
        proof {
            let next = s@.subrange(lo as int, i + 1);
            assert(next.drop_last() == s@.subrange(lo as int, i as int));
            lemma_pow10_small((i - lo) as nat);
            assert(pow10((i + 1 - lo) as nat) == 10 * pow10((i - lo) as nat));
        }
        acc = acc * 10 + d;
        i += 1;
    }
    let ghost written = acc;
    let mut k: usize = hi - lo;
    proof {
        assert(pow10(0) == 1);
        assert(written * pow10(0) == written) by (nonlinear_arith)
            requires
                pow10(0) == 1,
        ;
    }
    while k < PRICE_DECIMALS
        invariant
            hi - lo <= k <= PRICE_DECIMALS,
            written == digits_value(all),
            acc == written * pow10((k - (hi - lo)) as nat),
            acc < pow10(k as nat),
        decreases PRICE_DECIMALS - k,
    {
        proof {
            lemma_pow10_small(k as nat);
            let cur = pow10((k - (hi - lo)) as nat);
            let next = pow10((k + 1 - (hi - lo)) as nat);
            assert(next == 10 * cur);
            assert(written * next == written * cur * 10) by (nonlinear_arith)
                requires
                    next == 10 * cur,
            ;
            assert(pow10((k + 1) as nat) == 10 * pow10(k as nat));
        }
        acc = acc * 10;
        k += 1;
    }
    proof {
        lemma_pow10_small(8);
    }
    acc
}

/// Reads a decimal number and gives its ticks.
pub fn parse_decimal(text: &str) -> (r: Result<u64, DecimalError>)
    ensures
        r == parse_verdict(text.spec_bytes()),
{
    let s = text.as_bytes();
    let n = s.len();
    let mut p: usize = 0;
    while p < n && s[p] != POINT
        invariant
            p <= n,
            n == s@.len(),
            forall|k: int| 0 <= k < p ==> s@[k] != 46,
        decreases n - p,
    {
        p += 1;
    }
    proof {
        lemma_point_at(s@, p as int);
        assert(whole_part(s@) == s@.subrange(0, p as int));
        if p < n {
            assert(frac_part(s@) == s@.subrange(p + 1, n as int));
        }
    }
    if p == 0 {
        return Err(DecimalError::Malformed);
    }
    if p < n && (n - p - 1 == 0 || n - p - 1 > PRICE_DECIMALS) {
        return Err(DecimalError::Malformed);
    }
    if !digits_in(s, 0, p) {
        return Err(DecimalError::Malformed);
    }
    if p < n && !digits_in(s, p + 1, n) {
        return Err(DecimalError::Malformed);
    }
    let frac: u64 = if p < n {
        frac_in(s, p + 1, n)
    } else {
        proof {
            lemma_pow10_small(8);
            assert(digits_value(Seq::<u8>::empty()) == 0);
        }
        0
    };
    match value_in(s, 0, p) {
        None => Err(DecimalError::TooLarge),
        Some(whole) => {
            if whole > (u64::MAX - frac) / PRICE_SCALE {
                Err(DecimalError::TooLarge)
            } else {
                Ok(whole * PRICE_SCALE + frac)
            }
        },
    }
}

} // verus!
