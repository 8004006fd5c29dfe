//! Signal values are fixed-point numbers with six decimal places, held as
//! integer millionths: `0.5` is `500_000`, `3` is `3_000_000`.
use vstd::prelude::*;

verus! {

/// Millionths in one unit.
pub const SCALE: i64 = 1_000_000;

/// An optional fixed-point value as an optional integer.
pub open spec fn opt_int(o: Option<i64>) -> Option<int> {
    match o {
        Some(v) => Some(v as int),
        None => None,
    }
}

/// `num / den` in millionths, rounded down.
pub open spec fn ratio_of(num: int, den: int) -> int {
    num * (SCALE as int) / den
}

/// The fixed-point value of `num / den`, rounded down.
pub fn ratio(num: u128, den: u128) -> (r: i64)
    requires
        0 < den,
        num <= den,
        den <= 0x1_0000_0000_0000_0000_0000,
    ensures
        r == ratio_of(num as int, den as int),
        0 <= r <= SCALE,
{
    proof {
        assert(num as int * 1_000_000 <= den as int * 1_000_000) by (nonlinear_arith)
            requires num <= den;
        assert(num as int * 1_000_000 / den as int <= 1_000_000) by (nonlinear_arith)
            requires num as int * 1_000_000 <= den as int * 1_000_000, den > 0;
        assert(num as int * 1_000_000 / den as int >= 0) by (nonlinear_arith)
            requires num >= 0, den > 0;
    }
    let scaled: u128 = num * (SCALE as u128);
    (scaled / den) as i64
}

/// The fixed-point value of a whole count, saturating at `i64::MAX`.
pub open spec fn whole_of(n: int) -> int {
    if n * SCALE <= i64::MAX {
        n * SCALE
    } else {
        i64::MAX as int
    }
}

/// The fixed-point value of a whole count, saturating at `i64::MAX`.
pub fn whole(n: usize) -> (r: i64)
    ensures
        r == whole_of(n as int),
{
    if n as u128 * (SCALE as u128) <= i64::MAX as u128 {
        (n as i64) * SCALE
    } else {
        i64::MAX
    }
}

/// `a / b` rounded down, for a positive `b`.
pub fn floor_div(a: i128, b: i128) -> (r: i128)
    requires
        b > 0,
        a > i128::MIN,
    ensures
        r == a / b,
{
    if a >= 0 {
        proof {
            assert(a / b >= 0 && a / b <= a) by (nonlinear_arith)
                requires a >= 0, b > 0;
        }
        (a as u128 / b as u128) as i128
    } else {
        let mag: u128 = (-a) as u128;
        let q: u128 = mag / (b as u128);
        let rem: u128 = mag % (b as u128);
        proof {
            assert(mag as int == q as int * b + rem as int) by (nonlinear_arith)
                requires q == mag as int / b as int, rem == mag as int % b as int, b > 0;
            assert(q <= mag) by (nonlinear_arith)
                requires q == mag as int / b as int, b > 0;
        }
        if rem == 0 {
            proof {
                assert(a as int == -(q as int) * b + 0) by (nonlinear_arith)
                    requires a == -mag, mag as int == q as int * b + rem as int, rem == 0;
                vstd::arithmetic::div_mod::lemma_fundamental_div_mod_converse(a as int, b as int, -(q as int), 0);
            }
            -(q as i128)
        } else {
            proof {
                assert(a as int == (-(q as int) - 1) * b + (b - rem)) by (nonlinear_arith)
                    requires a == -mag, mag as int == q as int * b + rem as int;
                assert(rem < b) by (nonlinear_arith)
                    requires rem == mag as int % b as int, b > 0;
                vstd::arithmetic::div_mod::lemma_fundamental_div_mod_converse(a as int, b as int, -(q as int) - 1, b - rem);
                assert(q as int * b + rem as int <= 0x8000_0000_0000_0000_0000_0000_0000_0000 - 1);
                assert(q < 0x8000_0000_0000_0000_0000_0000_0000_0000 - 1) by (nonlinear_arith)
                    requires q as int * b + rem as int <= 0x8000_0000_0000_0000_0000_0000_0000_0000 - 1, b > 0, rem > 0;
            }
            -(q as i128) - 1
        }
    }
}

/// The integer square root: the largest `r` with `r * r <= n`.
pub open spec fn is_isqrt(r: int, n: int) -> bool {
    0 <= r && r * r <= n < (r + 1) * (r + 1)
}

/// The integer square root of `n`.
pub fn isqrt(n: u128) -> (r: u128)
    ensures
        is_isqrt(r as int, n as int),
{
    let mut lo: u128 = 0;
    let mut hi: u128 = 0x1_0000_0000_0000_0000;
    while hi - lo > 1
        invariant
            lo < hi <= 0x1_0000_0000_0000_0000,
            lo * lo <= n,
            n < hi as int * hi as int,
        decreases hi - lo,
    {
        let mid: u128 = lo + (hi - lo) / 2;
        proof {
            assert(mid * mid < 0x1_0000_0000_0000_0000 * 0x1_0000_0000_0000_0000) by (nonlinear_arith)
                requires mid < 0x1_0000_0000_0000_0000;
        }
        if mid * mid <= n {
            lo = mid;
        } else {
            hi = mid;
        }
    }
    assert(hi == lo + 1);
    lo
}

} // verus!
