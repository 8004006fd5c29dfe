//! Statistics over a series of fixed-point values (millionths): mean,
//! percentile rank, trailing streak and sparkline.
use vstd::prelude::*;
use vstd::arithmetic::div_mod::lemma_fundamental_div_mod_converse;

use crate::state::{signal_for_key, Signal, SignalVector};
use crate::text::string_of;
use crate::value::{floor_div, is_isqrt, isqrt, opt_int, SCALE};

verus! {

// --------------------------------------------------------------- series --

/// The present values of `vals`, in order.
pub open spec fn present_values(vals: Seq<Option<i64>>) -> Seq<i64>
    decreases vals.len(),
{
    if vals.len() == 0 {
        seq![]
    } else {
        let rest = present_values(vals.drop_last());
        match vals.last() {
            Some(v) => rest.push(v),
            None => rest,
        }
    }
}

/// The present values of the signal stored under `name` across `history`;
/// empty for a name that is no signal's key.
pub fn signal_series(history: &Vec<SignalVector>, name: &str) -> (r: Vec<i64>)
    ensures
        match signal_for_key(name@) {
            Some(s) => r@ == present_values(history@.map_values(|v: SignalVector| v.signals.get(s))),
            None => r@.len() == 0,
        },
{
    let sig = match Signal::from_key(name) {
        Some(s) => s,
        None => {
            return Vec::new();
        },
    };
    let ghost vals = history@.map_values(|v: SignalVector| v.signals.get(sig));
    let mut r: Vec<i64> = Vec::new();
    let mut i: usize = 0;
    while i < history.len()
        invariant
            i <= history.len(),
            vals == history@.map_values(|v: SignalVector| v.signals.get(sig)),
            r@ == present_values(vals.subrange(0, i as int)),
        decreases history.len() - i,
    {
        assert(vals.subrange(0, i + 1).drop_last() == vals.subrange(0, i as int));
        assert(vals.subrange(0, i + 1).last() == history@[i as int].signals.get(sig));
        match history[i].signals.value(sig) {
            Some(v) => r.push(v),
            None => {},
        }
        i += 1;
    }
    assert(vals.subrange(0, history.len() as int) == vals);
    r
}

// ----------------------------------------------------------------- mean --

pub open spec fn sum_of(v: Seq<i64>) -> int
    decreases v.len(),
{
    if v.len() == 0 {
        0
    } else {
        sum_of(v.drop_last()) + v.last()
    }
}

/// Arithmetic mean rounded down; absent for an empty series.
pub open spec fn mean_value(v: Seq<i64>) -> Option<int> {
    if v.len() == 0 {
        None
    } else {
        Some(sum_of(v) / (v.len() as int))
    }
}

/// Arithmetic mean of `values`, rounded down; `None` when empty.
pub fn mean(values: &Vec<i64>) -> (r: Option<i64>)
    ensures
        match mean_value(values@) {
            Some(m) => r == Some(m as i64) && i64::MIN <= m <= i64::MAX,
            None => r is None,
        },
{
    if values.len() == 0 {
        return None;
    }
    let mut sum: i128 = 0;
    let mut i: usize = 0;
    while i < values.len()
        invariant
            i <= values.len(),
            sum == sum_of(values@.subrange(0, i as int)),
            i as int * i64::MIN <= sum <= i as int * i64::MAX,
        decreases values.len() - i,
    {
        assert(values@.subrange(0, i + 1).drop_last() == values@.subrange(0, i as int));
        proof {
            assert((i as int + 1) * i64::MAX == i as int * i64::MAX + i64::MAX) by (nonlinear_arith);
            assert((i as int + 1) * i64::MIN == i as int * i64::MIN + i64::MIN) by (nonlinear_arith);
            assert(i as int * i64::MAX <= 0xffff_ffff_ffff_ffff * i64::MAX) by (nonlinear_arith)
                requires i <= 0xffff_ffff_ffff_ffff;
            assert(i as int * i64::MIN >= 0xffff_ffff_ffff_ffff * i64::MIN) by (nonlinear_arith)
                requires i <= 0xffff_ffff_ffff_ffff;
        }
        sum = sum + values[i] as i128;
        i += 1;
    }
    assert(values@.subrange(0, values.len() as int) == values@);
    let n: u128 = values.len() as u128;
    let ghost ni = n as int;
    let m: i128;
    if sum >= 0 {
        m = (sum as u128 / n) as i128;
        proof {
            assert(sum as int / ni <= i64::MAX) by (nonlinear_arith)
                requires sum <= ni * i64::MAX, ni > 0;
            assert(sum as int / ni >= 0) by (nonlinear_arith)
                requires sum >= 0, ni > 0;
        }
    } else {
        let mag: u128 = (-sum) as u128;
        let a: u128 = mag / n;
        let b: u128 = mag % n;
        proof {
            assert(mag as int == a as int * ni + b as int) by (nonlinear_arith)
                requires a == mag as int / ni, b == mag as int % ni, ni > 0;
            assert(a as int * ni <= mag) by (nonlinear_arith)
                requires mag as int == a as int * ni + b as int, b >= 0;
            assert(mag <= ni * 0x8000_0000_0000_0000) by (nonlinear_arith)
                requires ni * i64::MIN <= sum, mag == -sum;
            assert(a <= 0x8000_0000_0000_0000) by (nonlinear_arith)
                requires a as int * ni <= mag, mag <= ni * 0x8000_0000_0000_0000, ni > 0;
        }
        if b == 0 {
            m = -(a as i128);
            proof {
                assert(sum as int == -(a as int) * ni + 0) by (nonlinear_arith)
                    requires sum == -mag, mag as int == a as int * ni + b as int, b == 0;
                lemma_fundamental_div_mod_converse(sum as int, ni, -(a as int), 0);
            }
        } else {
            m = -(a as i128) - 1;
            proof {
                assert(sum as int == (-(a as int) - 1) * ni + (ni - b)) by (nonlinear_arith)
                    requires sum == -mag, mag as int == a as int * ni + b as int;
                lemma_fundamental_div_mod_converse(sum as int, ni, -(a as int) - 1, ni - b);
                assert(a as int * ni + b as int <= ni * 0x8000_0000_0000_0000);
                assert(a < 0x8000_0000_0000_0000) by (nonlinear_arith)
                    requires a as int * ni + b as int <= ni * 0x8000_0000_0000_0000, ni > 0, b > 0;
            }
        }
    }
    Some(m as i64)
}

// ------------------------------------------------------------ deviation --

/// Sum of squared deviations of `v` from `m`.
pub open spec fn sq_dev_sum(v: Seq<i64>, m: int) -> int
    decreases v.len(),
{
    if v.len() == 0 {
        0
    } else {
        sq_dev_sum(v.drop_last(), m) + (v.last() - m) * (v.last() - m)
    }
}

/// Population standard deviation of `v` in millionths: the integer square
/// root of the mean squared deviation from the rounded-down mean, itself
/// rounded down; absent for fewer than two values.
pub open spec fn std_dev_of(v: Seq<i64>) -> Option<int> {
    if v.len() < 2 {
        None
    } else {
        let m = sum_of(v) / (v.len() as int);
        let var = sq_dev_sum(v, m) / (v.len() as int);
        Some(choose|r: int| is_isqrt(r, var))
    }
}

proof fn lemma_isqrt_unique(a: int, b: int, n: int)
    requires
        is_isqrt(a, n),
        is_isqrt(b, n),
    ensures
        a == b,
{
    if a < b {
        assert((a + 1) * (a + 1) <= b * b) by (nonlinear_arith)
            requires 0 <= a < b;
    } else if b < a {
        assert((b + 1) * (b + 1) <= a * a) by (nonlinear_arith)
            requires 0 <= b < a;
    }
}

/// The largest square of a deviation between two `i64` values.
spec fn max_square() -> int {
    0xffff_ffff_ffff_ffffint * 0xffff_ffff_ffff_ffffint
}

/// Population standard deviation of `values`, in millionths; `None` for
/// fewer than two values.
pub fn std_dev(values: &Vec<i64>) -> (r: Option<u64>)
    ensures
        match (r, std_dev_of(values@)) {
            (Some(a), Some(b)) => a as int == b,
            (None, None) => true,
            _ => false,
        },
{
    if values.len() < 2 {
        return None;
    }
    let m = match mean(values) {
        Some(m) => m,
        None => return None,
    };
    let n: u128 = values.len() as u128;
    let ghost mi = m as int;
    // The sum of squared deviations so far is `q * n + rem`, `rem < n`.
    let mut q: u128 = 0;
    let mut rem: u128 = 0;
    let mut i: usize = 0;
    while i < values.len()
        invariant
            i <= values.len(),
            n == values.len(),
            n >= 2,
            mi == m,
            m == sum_of(values@) / (values.len() as int),
            q * n + rem == sq_dev_sum(values@.subrange(0, i as int), mi),
            rem < n,
            sq_dev_sum(values@.subrange(0, i as int), mi) <= i * max_square(),
        decreases values.len() - i,
    {
        assert(values@.subrange(0, i + 1).drop_last() == values@.subrange(0, i as int));
        let d: i128 = values[i] as i128 - m as i128;
        let mag: u128 = if d < 0 {
            (-d) as u128
        } else {
            d as u128
        };
        proof {
            assert(mag <= 0xffff_ffff_ffff_ffff);
            assert(mag * mag <= max_square()) by (nonlinear_arith)
                requires mag <= 0xffff_ffff_ffff_ffff;
            assert(mag * mag == d * d) by (nonlinear_arith)
                requires mag == d || mag == -d;
        }
        let sq: u128 = mag * mag;
        let a: u128 = sq / n;
        let b: u128 = sq % n;
        let ghost total = sq_dev_sum(values@.subrange(0, i + 1), mi);
        proof {
            assert(sq as int == a as int * n + b as int) by (nonlinear_arith)
                requires a == sq as int / n as int, b == sq as int % n as int, n > 0;
            assert(b < n) by (nonlinear_arith)
                requires b == sq as int % n as int, n > 0;
            assert(values@.subrange(0, i + 1).last() == values@[i as int]);
            assert(total == q * n + rem + sq);
            assert(total <= (i + 1) * max_square()) by (nonlinear_arith)
                requires
                    total == sq_dev_sum(values@.subrange(0, i as int), mi) + sq,
                    sq_dev_sum(values@.subrange(0, i as int), mi) <= i * max_square(),
                    sq <= max_square();
            assert(total <= n * max_square()) by (nonlinear_arith)
                requires total <= (i + 1) * max_square(), i + 1 <= n;
            assert((q + a) * n <= total) by (nonlinear_arith)
                requires total == q * n + rem + a * n + b, rem >= 0, b >= 0;
            assert(q + a <= max_square()) by (nonlinear_arith)
                requires (q + a) * n <= total, total <= n * max_square(), n > 0;
            if rem + b >= n {
                assert((q + a + 1) * n <= total) by (nonlinear_arith)
                    requires total == q * n + rem + a * n + b, rem + b >= n;
                assert(q + a + 1 <= max_square()) by (nonlinear_arith)
                    requires (q + a + 1) * n <= total, total <= n * max_square(), n > 0;
            }
        }
        let carry = rem + b >= n;
        let q2: u128 = if carry {
            q + a + 1
        } else {
            q + a
        };
        let r2: u128 = if carry {
            rem + b - n
        } else {
            rem + b
        };
        proof {
            assert(q2 * n + r2 == total) by (nonlinear_arith)
                requires
                    total == q * n + rem + a * n + b,
                    carry ==> q2 == q + a + 1 && r2 == rem + b - n,
                    !carry ==> q2 == q + a && r2 == rem + b;
        }
        q = q2;
        rem = r2;
        i += 1;
    }
    assert(values@.subrange(0, values.len() as int) == values@);
    proof {
        vstd::arithmetic::div_mod::lemma_fundamental_div_mod_converse(
            sq_dev_sum(values@, mi),
            n as int,
            q as int,
            rem as int,
        );
    }
    let s = isqrt(q);
    proof {
        assert(s < 0x1_0000_0000_0000_0000) by (nonlinear_arith)
            requires s * s <= q, q <= u128::MAX, s >= 0;
        let c = choose|r: int| is_isqrt(r, q as int);
        lemma_isqrt_unique(c, s as int, q as int);
    }
    Some(s as u64)
}

/// How many standard deviations `value` lies from `mean`, in millionths,
/// rounded down.
pub fn z_score(value: i64, mean: i64, std_dev: u64) -> (r: i128)
    requires
        std_dev > 0,
    ensures
        r == (value - mean) * SCALE / (std_dev as int),
{
    let diff: i128 = value as i128 - mean as i128;
    proof {
        assert(-0x1_0000_0000_0000_0000 <= diff <= 0x1_0000_0000_0000_0000);
        assert(diff * 1_000_000 > i128::MIN) by (nonlinear_arith)
            requires -0x1_0000_0000_0000_0000 <= diff;
        assert(diff * 1_000_000 < i128::MAX) by (nonlinear_arith)
            requires diff <= 0x1_0000_0000_0000_0000;
    }
    floor_div(diff * (SCALE as i128), std_dev as i128)
}

// ------------------------------------------------------- percentile rank --

/// Twice the number of values below `x` plus the number equal to it.
pub open spec fn rank_weight(v: Seq<i64>, x: i64) -> nat
    decreases v.len(),
{
    if v.len() == 0 {
        0
    } else {
        rank_weight(v.drop_last(), x) + if v.last() < x {
            2nat
        } else if v.last() == x {
            1nat
        } else {
            0nat
        }
    }
}

/// The percentile rank of `x` in `v`, in millionths of a percent, rounded
/// down: `(below + equal / 2) / n * 100`; 50 for an empty series.
pub open spec fn percentile_of(x: i64, v: Seq<i64>) -> int {
    if v.len() == 0 {
        50_000_000
    } else {
        rank_weight(v, x) as int * 50_000_000 / (v.len() as int)
    }
}

/// Percentile rank of `value` within `values`, in millionths of a percent
/// (`50_000_000` is 50%): values below count fully, equal ones half.
pub fn percentile_rank(value: i64, values: &Vec<i64>) -> (r: i64)
    ensures
        r == percentile_of(value, values@),
        0 <= r <= 100_000_000,
{
    if values.len() == 0 {
        return 50_000_000;
    }
    let mut w: u128 = 0;
    let mut i: usize = 0;
    while i < values.len()
        invariant
            i <= values.len(),
            w == rank_weight(values@.subrange(0, i as int), value),
            w <= 2 * i,
        decreases values.len() - i,
    {
        assert(values@.subrange(0, i + 1).drop_last() == values@.subrange(0, i as int));
        if values[i] < value {
            w = w + 2;
        } else if values[i] == value {
            w = w + 1;
        }
        i += 1;
    }
    assert(values@.subrange(0, values.len() as int) == values@);
    let n: u128 = values.len() as u128;
    proof {
        assert(w * 50_000_000 <= 2 * n * 50_000_000) by (nonlinear_arith)
            requires w <= 2 * n;
        assert((w * 50_000_000) as int / n as int <= 100_000_000) by (nonlinear_arith)
            requires w * 50_000_000 <= 2 * n * 50_000_000, n > 0;
        assert((w * 50_000_000) as int / n as int >= 0) by (nonlinear_arith)
            requires w >= 0, n > 0;
    }
    ((w * 50_000_000) / n) as i64
}

proof fn lemma_rank_weight_monotonic(v: Seq<i64>, x: i64, y: i64)
    requires
        x <= y,
    ensures
        rank_weight(v, x) <= rank_weight(v, y),
    decreases v.len(),
{
    if v.len() > 0 {
        lemma_rank_weight_monotonic(v.drop_last(), x, y);
    }
}

/// Percentile rank never decreases as the value grows, for a fixed series,
/// and is 50% for an empty series.
pub proof fn lemma_percentile_monotonic(v: Seq<i64>, x: i64, y: i64)
    requires
        x <= y,
    ensures
        percentile_of(x, v) <= percentile_of(y, v),
        v.len() == 0 ==> percentile_of(x, v) == 50_000_000,
{
    if v.len() > 0 {
        lemma_rank_weight_monotonic(v, x, y);
        let wx = rank_weight(v, x) as int;
        let wy = rank_weight(v, y) as int;
        let a = wx * 50_000_000;
        let b = wy * 50_000_000;
        assert(a <= b) by (nonlinear_arith)
            requires wx <= wy, a == wx * 50_000_000, b == wy * 50_000_000;
        vstd::arithmetic::div_mod::lemma_div_is_ordered(a, b, v.len() as int);
    }
}

// --------------------------------------------------------------- streak --

/// Direction of the step from `a` to `b`: 1 up, -1 down, 0 flat.
pub open spec fn step_dir(a: i64, b: i64) -> i8 {
    if b > a {
        1i8
    } else if b < a {
        -1i8
    } else {
        0i8
    }
}

/// Number of steps in direction `d` at the end of `v`.
pub open spec fn trailing_steps(v: Seq<i64>, d: i8) -> nat
    decreases v.len(),
{
    if v.len() < 2 {
        0
    } else if step_dir(v[v.len() - 2], v.last()) == d {
        trailing_steps(v.drop_last(), d) + 1
    } else {
        0
    }
}

/// Direction and length of the run at the end of `v`: for a rise or a
/// fall, the number of steps; for a flat run, the number of equal values.
pub open spec fn streak_of(v: Seq<i64>) -> (i8, nat) {
    if v.len() < 2 {
        (0, 0)
    } else {
        let d = step_dir(v[v.len() - 2], v.last());
        if d == 0 {
            (0, trailing_steps(v, 0) + 1)
        } else {
            (d, trailing_steps(v, d))
        }
    }
}

fn direction(a: i64, b: i64) -> (r: i8)
    ensures
        r == step_dir(a, b),
{
    if b > a {
        1
    } else if b < a {
        -1
    } else {
        0
    }
}

/// The run at the end of `values`: `(1, steps)` rising, `(-1, steps)`
/// falling, `(0, values)` flat; `(0, 0)` for fewer than two values.
pub fn streak(values: &Vec<i64>) -> (r: (i8, usize))
    ensures
        (r.0, r.1 as nat) == streak_of(values@),
{
    let n = values.len();
    if n < 2 {
        return (0, 0);
    }
    let d = direction(values[n - 2], values[n - 1]);
    let mut count: usize = 0;
    let mut j: usize = n - 1;
    assert(values@.subrange(0, n as int) == values@);
    while j >= 1 && direction(values[j - 1], values[j]) == d
        invariant
            n == values.len(),
            1 <= n,
            j < n,
            count + j == n - 1,
            count + trailing_steps(values@.subrange(0, j + 1), d) == trailing_steps(values@, d),
        decreases j,
    {
        let ghost u = values@.subrange(0, j + 1);
        assert(u.drop_last() == values@.subrange(0, j as int));
        assert(u[u.len() - 2] == values@[j - 1] && u.last() == values@[j as int]);
        count += 1;
        j -= 1;
    }
    proof {
        let u = values@.subrange(0, j + 1);
        if j >= 1 {
            assert(u[u.len() - 2] == values@[j - 1] && u.last() == values@[j as int]);
        }
        assert(trailing_steps(u, d) == 0);
    }
    if d == 0 {
        (0, count + 1)
    } else {
        (d, count)
    }
}

proof fn lemma_trailing_rise(v: Seq<i64>, k: nat)
    requires
        k < v.len(),
        forall|i: int| v.len() - 1 - k <= i < v.len() - 1 ==> #[trigger] v[i] < v[i + 1],
        k == v.len() - 1 || !(v[v.len() - 2 - k] < v[v.len() - 1 - k]),
    ensures
        trailing_steps(v, 1) == k,
    decreases k,
{
    if k > 0 {
        let u = v.drop_last();
        assert(v[v.len() - 2] < v[v.len() - 1]);
        assert forall|i: int| u.len() - 1 - (k - 1) <= i < u.len() - 1 implies #[trigger] u[i] < u[i + 1] by {
            assert(v[i] < v[i + 1]);
        }
        lemma_trailing_rise(u, (k - 1) as nat);
    } else if v.len() >= 2 {
        assert(!(v[v.len() - 2] < v[v.len() - 1]));
    }
}

/// A series of fewer than two values has the streak `(0, 0)`; one whose
/// last `k` steps rise, and no more, has the streak `(1, k)`.
pub proof fn lemma_streak_rising(v: Seq<i64>, k: nat)
    requires
        1 <= k < v.len(),
        forall|i: int| v.len() - 1 - k <= i < v.len() - 1 ==> #[trigger] v[i] < v[i + 1],
        k == v.len() - 1 || !(v[v.len() - 2 - k] < v[v.len() - 1 - k]),
    ensures
        streak_of(v) == (1i8, k),
        forall|w: Seq<i64>| w.len() < 2 ==> #[trigger] streak_of(w) == (0i8, 0nat),
{
    lemma_trailing_rise(v, k);
    assert(v[v.len() - 2] < v[v.len() - 1]);
}

// ------------------------------------------------------------ sparkline --

/// The index sampled at position `i` when `n` values are drawn to width
/// `w`: nearest-index sampling that takes the first and the last value;
/// the first value alone for a width of one.
pub open spec fn sample_index(i: int, n: int, w: int) -> int {
    if w <= 1 {
        0
    } else {
        i * (n - 1) / (w - 1)
    }
}

/// The series a sparkline of width `w` shows: `w` values picked at evenly
/// spaced indices of `v`, which draws a longer series down and stretches a
/// shorter one.
pub open spec fn sampled(v: Seq<i64>, w: nat) -> Seq<i64> {
    Seq::new(w, |i: int| v[sample_index(i, v.len() as int, w as int)])
}

pub open spec fn seq_min(v: Seq<i64>) -> int
    decreases v.len(),
{
    if v.len() <= 1 {
        if v.len() == 1 {
            v[0] as int
        } else {
            0
        }
    } else if v.last() < seq_min(v.drop_last()) {
        v.last() as int
    } else {
        seq_min(v.drop_last())
    }
}

pub open spec fn seq_max(v: Seq<i64>) -> int
    decreases v.len(),
{
    if v.len() <= 1 {
        if v.len() == 1 {
            v[0] as int
        } else {
            0
        }
    } else if v.last() > seq_max(v.drop_last()) {
        v.last() as int
    } else {
        seq_max(v.drop_last())
    }
}

/// The level, 0 to 7, of `x` between `lo` and `hi`: its position rounded
/// half up to eighths of the range; 3 when the range is empty.
pub open spec fn level(x: int, lo: int, hi: int) -> nat {
    if hi == lo {
        3
    } else {
        let l = (14 * (x - lo) + (hi - lo)) / (2 * (hi - lo));
        if l > 7 {
            7
        } else {
            l as nat
        }
    }
}

/// The block glyph of level `l`, from the lowest to the full block.
pub open spec fn block(l: nat) -> char {
    if l == 0 {
        '\u{2581}'
    } else if l == 1 {
        '\u{2582}'
    } else if l == 2 {
        '\u{2583}'
    } else if l == 3 {
        '\u{2584}'
    } else if l == 4 {
        '\u{2585}'
    } else if l == 5 {
        '\u{2586}'
    } else if l == 6 {
        '\u{2587}'
    } else {
        '\u{2588}'
    }
}

/// The sparkline of `v` at width `w`: one block per sampled value, by its
/// level between the sample's minimum and maximum.
pub open spec fn sparkline_of(v: Seq<i64>, w: nat) -> Seq<char> {
    if v.len() == 0 || w == 0 {
        seq![]
    } else {
        let s = sampled(v, w);
        s.map_values(|x: i64| block(level(x as int, seq_min(s), seq_max(s))))
    }
}

proof fn lemma_min_max(v: Seq<i64>)
    requires
        v.len() > 0,
    ensures
        forall|i: int| 0 <= i < v.len() ==> seq_min(v) <= #[trigger] v[i] <= seq_max(v),
        i64::MIN <= seq_min(v) <= seq_max(v) <= i64::MAX,
    decreases v.len(),
{
    if v.len() > 1 {
        lemma_min_max(v.drop_last());
        assert forall|i: int| 0 <= i < v.len() implies seq_min(v) <= #[trigger] v[i] <= seq_max(v) by {
            if i < v.len() - 1 {
                assert(v[i] == v.drop_last()[i]);
            }
        }
    }
}

fn block_of(l: u128) -> (r: char)
    requires
        l <= 7,
    ensures
        r == block(l as nat),
{
    if l == 0 {
        '\u{2581}'
    } else if l == 1 {
        '\u{2582}'
    } else if l == 2 {
        '\u{2583}'
    } else if l == 3 {
        '\u{2584}'
    } else if l == 4 {
        '\u{2585}'
    } else if l == 5 {
        '\u{2586}'
    } else if l == 6 {
        '\u{2587}'
    } else {
        '\u{2588}'
    }
}

fn sample(values: &Vec<i64>, width: usize) -> (r: Vec<i64>)
    requires
        width >= 1,
        values.len() >= 1,
    ensures
        r@ == sampled(values@, width as nat),
{
    let n = values.len();
    let mut r: Vec<i64> = Vec::new();
    let mut i: usize = 0;
    while i < width
        invariant
            n == values.len(),
            n >= 1,
            width >= 1,
            i <= width,
            r@.len() == i,
            forall|j: int| 0 <= j < i ==> #[trigger] r@[j] == values@[sample_index(j, n as int, width as int)],
        decreases width - i,
    {
        let idx: usize = if width == 1 {
            0
        } else {
            proof {
                assert(i as int * (n - 1) as int <= 0xffff_ffff_ffff_ffff * 0xffff_ffff_ffff_ffff)
                    by (nonlinear_arith)
                    requires i <= 0xffff_ffff_ffff_ffff, n - 1 <= 0xffff_ffff_ffff_ffff, n >= 1;
            }
            let num: u128 = (i as u128) * ((n - 1) as u128);
            let q: u128 = num / ((width - 1) as u128);
            proof {
                assert(num <= (width - 1) as int * (n - 1) as int) by (nonlinear_arith)
                    requires num == i as int * (n - 1) as int, i < width, n >= 1;
                assert(num as int / (width - 1) as int <= n - 1) by (nonlinear_arith)
                    requires num <= (width - 1) as int * (n - 1) as int, width > 1;
                assert(num as int / (width - 1) as int >= 0) by (nonlinear_arith)
                    requires num >= 0, width > 1;
            }
            q as usize
        };
        r.push(values[idx]);
        i += 1;
    }
    assert(r@ =~= sampled(values@, width as nat));
    r
}

/// A fixed-width digest of `values`: `width` values picked at evenly
/// spaced indices (drawing a longer series down, stretching a shorter one),
/// each shown as one of eight blocks by its place between the sample's
/// minimum and maximum; a flat sample shows the fourth block throughout.
/// Empty for no values or a zero width.
pub fn sparkline(values: &Vec<i64>, width: usize) -> (r: String)
    ensures
        r@ == sparkline_of(values@, width as nat),
{
    if values.len() == 0 || width == 0 {
        return string_of(&Vec::new());
    }
    let s = sample(values, width);
    let ghost lo_s = seq_min(s@);
    let ghost hi_s = seq_max(s@);
    proof {
        lemma_min_max(s@);
    }
    let mut lo: i64 = s[0];
    let mut hi: i64 = s[0];
    let mut i: usize = 1;
    while i < s.len()
        invariant
            1 <= i <= s.len(),
            lo == seq_min(s@.subrange(0, i as int)),
            hi == seq_max(s@.subrange(0, i as int)),
        decreases s.len() - i,
    {
        assert(s@.subrange(0, i + 1).drop_last() == s@.subrange(0, i as int));
        if s[i] < lo {
            lo = s[i];
        }
        if s[i] > hi {
            hi = s[i];
        }
        i += 1;
    }
    assert(s@.subrange(0, s.len() as int) == s@);
    let range: i128 = hi as i128 - lo as i128;
    let mut out: Vec<char> = Vec::new();
    let mut k: usize = 0;
    while k < s.len()
        invariant
            k <= s.len(),
            lo == lo_s && hi == hi_s,
            range == hi - lo,
            forall|j: int| 0 <= j < s.len() ==> lo_s <= #[trigger] s@[j] <= hi_s,
            out@.len() == k,
            forall|j: int| 0 <= j < k ==> #[trigger] out@[j] == block(level(s@[j] as int, lo_s, hi_s)),
        decreases s.len() - k,
    {
        let x = s[k];
        assert(lo <= x <= hi);
        let l: u128 = if range == 0 {
            3
        } else {
            let num: u128 = (14 * (x as i128 - lo as i128) + range) as u128;
            let q = num / (2 * range as u128);
            if q > 7 {
                7
            } else {
                q
            }
        };
        out.push(block_of(l));
        k += 1;
    }
    assert(out@ =~= sparkline_of(values@, width as nat));
    string_of(&out)
}

/// The sparkline of a non-empty series at a width of one or more has
/// exactly that many glyphs; the sample's minimum gets the lowest block and
/// its maximum the full block (the fourth block throughout when flat).
pub proof fn lemma_sparkline_shape(v: Seq<i64>, w: nat)
    requires
        1 <= w,
        1 <= v.len(),
    ensures
        sparkline_of(v, w).len() == w,
        ({
            let s = sampled(v, w);
            forall|i: int|
                0 <= i < w ==> {
                    &&& (seq_min(s) < seq_max(s) && s[i] == seq_min(s)) ==> #[trigger] sparkline_of(v, w)[i] == block(0)
                    &&& (seq_min(s) < seq_max(s) && s[i] == seq_max(s)) ==> sparkline_of(v, w)[i] == block(7)
                    &&& seq_min(s) == seq_max(s) ==> sparkline_of(v, w)[i] == block(3)
                }
        }),
{
    let s = sampled(v, w);
    assert(s.len() == w);
    assert forall|i: int| 0 <= i < w implies {
        &&& (seq_min(s) < seq_max(s) && s[i] == seq_min(s)) ==> #[trigger] sparkline_of(v, w)[i] == block(0)
        &&& (seq_min(s) < seq_max(s) && s[i] == seq_max(s)) ==> sparkline_of(v, w)[i] == block(7)
        &&& seq_min(s) == seq_max(s) ==> sparkline_of(v, w)[i] == block(3)
    } by {
        let lo = seq_min(s);
        let hi = seq_max(s);
        if lo < hi {
            let r = hi - lo;
            assert((14 * (lo - lo) + r) / (2 * r) == 0) by (nonlinear_arith)
                requires r > 0;
            assert((14 * (hi - lo) + r) / (2 * r) == 7) by (nonlinear_arith)
                requires r > 0, r == hi - lo;
        }
    }
}

} // verus!
