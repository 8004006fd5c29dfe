//! Timestamps: the current time from the system clock, UTC timestamps of
//! the form `YYYY-MM-DDThh:mm:ssZ`, and back to seconds since the epoch.
use vstd::prelude::*;

use crate::format::{decimal, push_decimal};
use crate::text::{chars_of, string_of};

verus! {

/// Relies on `SystemTime::now` and `duration_since(UNIX_EPOCH)`: whole
/// seconds since the epoch, 0 for a clock set before it. Nothing is
/// promised of the value.
#[verifier::external_body]
fn clock_secs() -> (r: u64) {
    std::time::SystemTime::now().duration_since(std::time::UNIX_EPOCH).unwrap_or_default().as_secs()
}

/// Seconds since the Unix epoch, from the system clock.
pub fn now_epoch_secs() -> (r: u64) {
    clock_secs()
}

/// The civil date `(year, month, day)` of a day count since 1970-01-01,
/// by the era-based conversion of the proleptic Gregorian calendar.
pub open spec fn civil_of_days(days: int) -> (int, int, int) {
    let z = days + 719468;
    let era = z / 146097;
    let doe = z - era * 146097;
    let yoe = (doe - doe / 1460 + doe / 36524 - doe / 146096) / 365;
    let y = yoe + era * 400;
    let doy = doe - (365 * yoe + yoe / 4 - yoe / 100);
    let mp = (5 * doy + 2) / 153;
    let d = doy - (153 * mp + 2) / 5 + 1;
    let m = if mp < 10 {
        mp + 3
    } else {
        mp - 9
    };
    (if m <= 2 {
        y + 1
    } else {
        y
    }, m, d)
}

/// The day count since 1970-01-01 of a civil date; absent where the
/// conversion would go below zero (dates before the epoch, a day 0 in
/// March, year 0 in January or February).
pub open spec fn days_of_civil(year: int, month: int, day: int) -> Option<int> {
    let y = if month <= 2 {
        year - 1
    } else {
        year
    };
    let m = if month <= 2 {
        month + 9
    } else {
        month - 3
    };
    let era = y / 400;
    let yoe = y - era * 400;
    let doy = (153 * m + 2) / 5 + day - 1;
    let doe = yoe * 365 + yoe / 4 - yoe / 100 + doy;
    if y < 0 || (153 * m + 2) / 5 + day == 0 || era * 146097 + doe < 719468 {
        None
    } else {
        Some(era * 146097 + doe - 719468)
    }
}

/// `n` in decimal, padded with zeros to at least `w` digits.
pub open spec fn padded(n: nat, w: nat) -> Seq<char> {
    let d = decimal(n);
    if d.len() < w {
        Seq::new((w - d.len()) as nat, |i: int| '0') + d
    } else {
        d
    }
}

/// The UTC timestamp `YYYY-MM-DDThh:mm:ssZ` of `secs` seconds since the epoch.
pub open spec fn iso_text(secs: nat) -> Seq<char> {
    let (y, m, d) = civil_of_days((secs / 86400) as int);
    let t = secs % 86400;
    padded(y as nat, 4) + seq!['-'] + padded(m as nat, 2) + seq!['-'] + padded(d as nat, 2)
        + seq!['T'] + padded(t / 3600, 2) + seq![':'] + padded((t % 3600) / 60, 2) + seq![':']
        + padded(t % 60, 2) + seq!['Z']
}

proof fn lemma_civil_bounds(days: int)
    requires
        0 <= days <= 0xffff_ffff_ffff_ffffint / 86400,
    ensures
        ({
            let z = days + 719468;
            let era = z / 146097;
            let doe = z - era * 146097;
            let yoe = (doe - doe / 1460 + doe / 36524 - doe / 146096) / 365;
            let doy = doe - (365 * yoe + yoe / 4 - yoe / 100);
            &&& 0 <= doe < 146097
            &&& 0 <= yoe <= 399
            &&& 0 <= doy <= 365
            &&& 0 <= (5 * doy + 2) / 153 <= 11
            &&& (153 * ((5 * doy + 2) / 153) + 2) / 5 <= doy
        }),
{
    let z = days + 719468;
    let era = z / 146097;
    let doe = z - era * 146097;
    assert(0 <= doe < 146097) by (nonlinear_arith)
        requires era == z / 146097, doe == z - era * 146097, z >= 0;
    let a = doe - doe / 1460 + doe / 36524 - doe / 146096;
    let yoe = a / 365;
    assert(0 <= yoe <= 399) by (nonlinear_arith)
        requires 0 <= doe < 146097, a == doe - doe / 1460 + doe / 36524 - doe / 146096, yoe == a / 365;
    let doy = doe - (365 * yoe + yoe / 4 - yoe / 100);
    assert(0 <= doy <= 365) by (nonlinear_arith)
        requires 0 <= doe < 146097, a == doe - doe / 1460 + doe / 36524 - doe / 146096, yoe == a / 365,
            doy == doe - (365 * yoe + yoe / 4 - yoe / 100);
    let mp = (5 * doy + 2) / 153;
    assert(0 <= mp <= 11) by (nonlinear_arith)
        requires 0 <= doy <= 365, mp == (5 * doy + 2) / 153;
    assert((153 * mp + 2) / 5 <= doy) by (nonlinear_arith)
        requires 0 <= doy <= 365, mp == (5 * doy + 2) / 153;
}

/// The civil date of a day count since 1970-01-01.
fn days_to_date(days_since_epoch: u64) -> (r: (u64, u64, u64))
    requires
        days_since_epoch <= 0xffff_ffff_ffff_ffffu64 / 86400,
    ensures
        (r.0 as int, r.1 as int, r.2 as int) == civil_of_days(days_since_epoch as int),
        1 <= r.1 <= 12,
{
    proof {
        lemma_civil_bounds(days_since_epoch as int);
    }
    let z = days_since_epoch + 719468;
    let era = z / 146097;
    let doe = z - era * 146097;
    let yoe = (doe - doe / 1460 + doe / 36524 - doe / 146096) / 365;
    let y = yoe + era * 400;
    let doy = doe - (365 * yoe + yoe / 4 - yoe / 100);
    let mp = (5 * doy + 2) / 153;
    let d = doy - (153 * mp + 2) / 5 + 1;
    let m = if mp < 10 {
        mp + 3
    } else {
        mp - 9
    };
    let year = if m <= 2 {
        y + 1
    } else {
        y
    };
    (year, m, d)
}

fn decimal_len(n: u64) -> (r: u64)
    ensures
        r == decimal(n as nat).len(),
        r <= n as int + 1,
    decreases n,
{
    if n < 10 {
        1
    } else {
        let k = decimal_len(n / 10);
        assert(n / 10 + 1 < n);
        1 + k
    }
}

fn push_padded(out: &mut Vec<char>, n: u64, w: u64)
    requires
        w <= 4,
    ensures
        final(out)@ == old(out)@ + padded(n as nat, w as nat),
{
    let ghost start = out@;
    let len = decimal_len(n);
    let mut k: u64 = len;
    while k < w
        invariant
            len == decimal(n as nat).len(),
            len <= k,
            len < w ==> k <= w,
            len >= w ==> k == len,
            out@ == start + Seq::new((k - len) as nat, |i: int| '0'),
        decreases w - k,
    {
        out.push('0');
        k += 1;
        assert(out@ =~= start + Seq::new((k - len) as nat, |i: int| '0'));
    }
    let ghost zeros = out@;
    push_decimal(out, n as u128);
    assert(out@ =~= start + padded(n as nat, w as nat)) by {
        if len < w {
            assert(zeros =~= start + Seq::new((w - len) as nat, |i: int| '0'));
        } else {
            assert(zeros =~= start + Seq::new(0nat, |i: int| '0'));
        }
    }
}

/// The UTC timestamp `YYYY-MM-DDThh:mm:ssZ` of `secs` seconds since the
/// epoch, with a four-digit (or longer) year.
pub fn iso_from_epoch(secs: u64) -> (r: String)
    ensures
        r@ == iso_text(secs as nat),
{
    let days = secs / 86400;
    let t = secs % 86400;
    let (year, month, day) = days_to_date(days);
    let mut out: Vec<char> = Vec::new();
    push_padded(&mut out, year, 4);
    out.push('-');
    push_padded(&mut out, month, 2);
    out.push('-');
    push_padded(&mut out, day, 2);
    out.push('T');
    push_padded(&mut out, t / 3600, 2);
    out.push(':');
    push_padded(&mut out, (t % 3600) / 60, 2);
    out.push(':');
    push_padded(&mut out, t % 60, 2);
    out.push('Z');
    assert(out@ =~= iso_text(secs as nat));
    string_of(&out)
}

/// The current UTC time as `YYYY-MM-DDThh:mm:ssZ`.
pub fn now_iso() -> (r: String)
    ensures
        exists|secs: nat| r@ == iso_text(secs),
{
    iso_from_epoch(clock_secs())
}

// -------------------------------------------------------------- parsing --

pub open spec fn digit_value(c: char) -> nat {
    (c as u32 - 48) as nat
}

/// The value of a string of decimal digits.
pub open spec fn digits_value(s: Seq<char>) -> nat
    decreases s.len(),
{
    if s.len() == 0 {
        0
    } else {
        digits_value(s.drop_last()) * 10 + digit_value(s.last())
    }
}

pub open spec fn all_digits(s: Seq<char>) -> bool {
    forall|i: int| 0 <= i < s.len() ==> '0' <= #[trigger] s[i] && s[i] <= '9'
}

/// An unsigned integer as `u64::from_str` reads it: an optional `+`, then
/// one or more decimal digits.
pub open spec fn parse_unsigned(s: Seq<char>) -> Option<nat> {
    let t = if s.len() > 0 && s[0] == '+' {
        s.drop_first()
    } else {
        s
    };
    if t.len() > 0 && all_digits(t) {
        Some(digits_value(t))
    } else {
        None
    }
}

pub open spec fn ascii_prefix(s: Seq<char>, n: int) -> bool {
    forall|i: int| 0 <= i < n ==> ((#[trigger] s[i]) as u32) < 128
}

/// Seconds since the epoch of a timestamp `YYYY-MM-DDThh:mm:ssZ`, read from
/// its first 19 characters (the separators are not checked); absent when a
/// field does not parse, the text is shorter or not ASCII there, or the
/// date falls before the epoch.
pub open spec fn epoch_of(ts: Seq<char>) -> Option<nat> {
    if ts.len() < 19 || !ascii_prefix(ts, 19) {
        None
    } else {
        match (
            parse_unsigned(ts.subrange(0, 4)),
            parse_unsigned(ts.subrange(5, 7)),
            parse_unsigned(ts.subrange(8, 10)),
            parse_unsigned(ts.subrange(11, 13)),
            parse_unsigned(ts.subrange(14, 16)),
            parse_unsigned(ts.subrange(17, 19)),
        ) {
            (Some(y), Some(mo), Some(d), Some(h), Some(mi), Some(s)) => match days_of_civil(
                y as int,
                mo as int,
                d as int,
            ) {
                Some(days) => Some((days * 86400 + h * 3600 + mi * 60 + s) as nat),
                None => None,
            },
            _ => None,
        }
    }
}

/// `10^k` for `k <= 4`.
spec fn digit_bound(k: int) -> int {
    if k <= 0 {
        1
    } else if k == 1 {
        10
    } else if k == 2 {
        100
    } else if k == 3 {
        1000
    } else {
        10000
    }
}

fn parse_field(t: &Vec<char>, lo: usize, hi: usize) -> (r: Option<u64>)
    requires
        lo < hi <= t.len(),
        hi - lo <= 4,
    ensures
        match parse_unsigned(t@.subrange(lo as int, hi as int)) {
            Some(v) => r == Some(v as u64) && v < 10000,
            None => r is None,
        },
{
    let ghost s = t@.subrange(lo as int, hi as int);
    let start = if t[lo] == '+' {
        lo + 1
    } else {
        lo
    };
    let ghost u = t@.subrange(start as int, hi as int);
    assert(u =~= (if s.len() > 0 && s[0] == '+' {
        s.drop_first()
    } else {
        s
    }));
    if start == hi {
        return None;
    }
    let mut v: u64 = 0;
    let mut i: usize = start;
    while i < hi
        invariant
            start <= i <= hi <= t.len(),
            hi - start <= 4,
            u == t@.subrange(start as int, hi as int),
            s == t@.subrange(lo as int, hi as int),
            u == (if s.len() > 0 && s[0] == '+' {
                s.drop_first()
            } else {
                s
            }),
            all_digits(t@.subrange(start as int, i as int)),
            v == digits_value(t@.subrange(start as int, i as int)),
            v < digit_bound(i - start),
        decreases hi - i,
    {
        let c = t[i];
        let ghost sub = t@.subrange(start as int, i + 1);
        assert(sub.drop_last() =~= t@.subrange(start as int, i as int));
        if c < '0' || c > '9' {
            assert(!all_digits(u)) by {
                assert(u[(i - start) as int] == t@[i as int]);
            }
            return None;
        }
        v = v * 10 + (c as u64 - 48);
        i += 1;
        assert(all_digits(t@.subrange(start as int, i as int))) by {
            assert forall|j: int| 0 <= j < i - start implies '0' <= #[trigger] t@.subrange(start as int, i as int)[j]
                && t@.subrange(start as int, i as int)[j] <= '9' by {
                if j < i - 1 - start {
                    assert(t@.subrange(start as int, i as int)[j] == t@.subrange(start as int, i - 1)[j]);
                }
            }
        }
    }
    Some(v)
}

fn ascii_head(t: &Vec<char>, n: usize) -> (r: bool)
    requires
        n <= t.len(),
    ensures
        r == ascii_prefix(t@, n as int),
{
    let mut i: usize = 0;
    while i < n
        invariant
            i <= n <= t.len(),
            ascii_prefix(t@, i as int),
        decreases n - i,
    {
        if (t[i] as u32) >= 128 {
            return false;
        }
        i += 1;
    }
    true
}

/// Seconds since the epoch of a UTC timestamp `YYYY-MM-DDThh:mm:ssZ`;
/// `None` when it cannot be read or falls before the epoch.
pub fn parse_iso_epoch(ts: &str) -> (r: Option<u64>)
    ensures
        match epoch_of(ts@) {
            Some(v) => r == Some(v as u64) && v <= u64::MAX,
            None => r is None,
        },
{
    let t = chars_of(ts);
    if t.len() < 19 {
        return None;
    }
    if !ascii_head(&t, 19) {
        return None;
    }
    let year = match parse_field(&t, 0, 4) {
        Some(v) => v,
        None => return None,
    };
    let month = match parse_field(&t, 5, 7) {
        Some(v) => v,
        None => return None,
    };
    let day = match parse_field(&t, 8, 10) {
        Some(v) => v,
        None => return None,
    };
    let hours = match parse_field(&t, 11, 13) {
        Some(v) => v,
        None => return None,
    };
    let minutes = match parse_field(&t, 14, 16) {
        Some(v) => v,
        None => return None,
    };
    let seconds = match parse_field(&t, 17, 19) {
        Some(v) => v,
        None => return None,
    };
    let days = match date_to_days(year, month, day) {
        Some(d) => d,
        None => return None,
    };
    Some(days * 86400 + hours * 3600 + minutes * 60 + seconds)
}

/// The day count since 1970-01-01 of a civil date with fields below 10000.
fn date_to_days(year: u64, month: u64, day: u64) -> (r: Option<u64>)
    requires
        year < 10000 && month < 10000 && day < 10000,
    ensures
        match days_of_civil(year as int, month as int, day as int) {
            Some(d) => r == Some(d as u64) && d < 4_000_000,
            None => r is None,
        },
{
    if month <= 2 && year == 0 {
        return None;
    }
    let y = if month <= 2 {
        year - 1
    } else {
        year
    };
    let m = if month <= 2 {
        month + 9
    } else {
        month - 3
    };
    let era = y / 400;
    let yoe = y - era * 400;
    if (153 * m + 2) / 5 + day == 0 {
        return None;
    }
    let doy = (153 * m + 2) / 5 + day - 1;
    let doe = yoe * 365 + yoe / 4 - yoe / 100 + doy;
    if era * 146097 + doe < 719468 {
        return None;
    }
    Some(era * 146097 + doe - 719468)
}

} // verus!
