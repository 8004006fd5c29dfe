//! Decimal text for counts and fixed-point values.
use vstd::prelude::*;

verus! {

/// The character of decimal digit `d < 10`.
pub open spec fn digit_char(d: nat) -> char {
    ((d + 48) as u8) as char
}

/// `n` in decimal, without leading zeros.
pub open spec fn decimal(n: nat) -> Seq<char>
    decreases n,
{
    if n < 10 {
        seq![digit_char(n)]
    } else {
        decimal(n / 10).push(digit_char(n % 10))
    }
}

pub open spec fn abs(v: int) -> nat {
    if v < 0 {
        (-v) as nat
    } else {
        v as nat
    }
}

/// A minus sign for a negative value; a plus sign for another one when
/// `plus` is asked for.
pub open spec fn sign_text(v: int, plus: bool) -> Seq<char> {
    if v < 0 {
        seq!['-']
    } else if plus {
        seq!['+']
    } else {
        seq![]
    }
}

/// `v` millionths as a decimal with two places, rounded half away from zero.
pub open spec fn fixed2_text(v: int, plus: bool) -> Seq<char> {
    let q = (abs(v) + 5000) / 10000;
    sign_text(v, plus) + decimal(q / 100) + seq![
        '.',
        digit_char((q % 100) / 10),
        digit_char(q % 10),
    ]
}

/// `v` millionths as a whole number, rounded half away from zero.
pub open spec fn fixed0_text(v: int, plus: bool) -> Seq<char> {
    sign_text(v, plus) + decimal((abs(v) + 500_000) / 1_000_000)
}

fn digit_of(d: u64) -> (r: char)
    requires
        d < 10,
    ensures
        r == digit_char(d as nat),
{
    ((d + 48) as u8) as char
}

/// Append `n` in decimal.
pub fn push_decimal(out: &mut Vec<char>, n: u128)
    ensures
        final(out)@ == old(out)@ + decimal(n as nat),
    decreases n,
{
    let ghost start = out@;
    if n >= 10 {
        push_decimal(out, n / 10);
    }
    out.push(digit_of((n % 10) as u64));
    proof {
        if n >= 10 {
            assert(start + decimal(n as nat) =~= start + decimal((n / 10) as nat) + seq![
                digit_char((n % 10) as nat),
            ]);
        }
        assert(out@ =~= start + decimal(n as nat));
    }
}

fn magnitude(v: i64) -> (r: u64)
    ensures
        r == abs(v as int),
{
    if v < 0 {
        (-(v as i128)) as u64
    } else {
        v as u64
    }
}

fn push_sign(out: &mut Vec<char>, v: i64, plus: bool)
    ensures
        final(out)@ == old(out)@ + sign_text(v as int, plus),
{
    let ghost start = out@;
    if v < 0 {
        out.push('-');
    } else if plus {
        out.push('+');
    }
    assert(out@ =~= start + sign_text(v as int, plus));
}

/// Append `v` millionths with two decimal places.
pub fn push_fixed2(out: &mut Vec<char>, v: i64, plus: bool)
    ensures
        final(out)@ == old(out)@ + fixed2_text(v as int, plus),
{
    let ghost start = out@;
    push_sign(out, v, plus);
    let q: u64 = (magnitude(v) + 5000) / 10000;
    push_decimal(out, (q / 100) as u128);
    out.push('.');
    out.push(digit_of((q % 100) / 10));
    out.push(digit_of(q % 10));
    assert(out@ =~= start + fixed2_text(v as int, plus));
}

/// Append `v` millionths as a whole number.
pub fn push_fixed0(out: &mut Vec<char>, v: i64, plus: bool)
    ensures
        final(out)@ == old(out)@ + fixed0_text(v as int, plus),
{
    let ghost start = out@;
    push_sign(out, v, plus);
    push_decimal(out, ((magnitude(v) + 500_000) / 1_000_000) as u128);
    assert(out@ =~= start + fixed0_text(v as int, plus));
}

/// `v` millionths as a decimal with one place, rounded half away from zero.
pub open spec fn fixed1_text(v: int) -> Seq<char> {
    let q = (abs(v) + 50_000) / 100_000;
    sign_text(v, false) + decimal(q / 10) + seq!['.', digit_char(q % 10)]
}

/// Append a non-negative `v` millionths with one decimal place.
pub fn push_fixed1(out: &mut Vec<char>, v: u128)
    requires
        v <= u128::MAX - 50_000,
    ensures
        final(out)@ == old(out)@ + fixed1_text(v as int),
{
    let ghost start = out@;
    let q: u128 = (v + 50_000) / 100_000;
    push_decimal(out, q / 10);
    out.push('.');
    out.push(digit_of((q % 10) as u64));
    assert(out@ =~= start + fixed1_text(v as int));
}

} // verus!
