//! Readings that lie two standard deviations or more from a signal's mean.
use vstd::prelude::*;

use crate::format::{abs, decimal, fixed1_text, fixed2_text, push_decimal, push_fixed1, push_fixed2};
use crate::state::{
    all_signals, lemma_key_round_trip, signal_friendly, signal_key, signal_list, Signal,
    SignalVector,
};
use crate::stats::{
    mean, percentile_of, percentile_rank, present_values, signal_series, std_dev, std_dev_of,
    sum_of, z_score,
};
use crate::text::{push_str, string_of};
use crate::value::SCALE;

verus! {

/// Fewest values a series needs before its readings are judged.
pub const MIN_ANOMALY_POINTS: usize = 5;

/// Distance from the mean, in millionths of a standard deviation, that
/// makes a reading anomalous.
pub const ANOMALY_Z: i128 = 2_000_000;

/// The note for an anomalous reading: the signal, the reading, how many
/// deviations it lies from the mean and on which side, and its percentile.
pub open spec fn anomaly_text(s: Signal, current: i64, z: int, pct: int) -> Seq<char> {
    signal_friendly(s) + " current reading ("@ + fixed2_text(current as int, false) + ") is "@
        + fixed1_text(abs(z) as int) + " std devs "@ + (if z > 0 {
        "above"@
    } else {
        "below"@
    }) + " mean ("@ + decimal((pct / 1_000_000) as nat) + "th percentile)"@
}

/// The note for signal `s` over its series `v`, when its latest reading is
/// anomalous: at least five values, a positive deviation, and a z-score of
/// two or more either way.
pub open spec fn anomaly_of(s: Signal, v: Seq<i64>) -> Option<Seq<char>> {
    if v.len() < MIN_ANOMALY_POINTS {
        None
    } else {
        let m = sum_of(v) / (v.len() as int);
        match std_dev_of(v) {
            Some(sd) => if sd > 0 {
                let cur = v.last();
                let z = (cur - m) * SCALE / sd;
                if abs(z) >= ANOMALY_Z {
                    Some(anomaly_text(s, cur, z, percentile_of(cur, v)))
                } else {
                    None
                }
            } else {
                None
            },
            None => None,
        }
    }
}

/// The series of signal `s` across `h`.
pub open spec fn series_for(h: Seq<SignalVector>, s: Signal) -> Seq<i64> {
    present_values(h.map_values(|v: SignalVector| v.signals.get(s)))
}

/// The anomaly notes of the signals `sigs` over `h`, in order.
pub open spec fn anomaly_list(h: Seq<SignalVector>, sigs: Seq<Signal>) -> Seq<Seq<char>>
    decreases sigs.len(),
{
    if sigs.len() == 0 {
        seq![]
    } else {
        let rest = anomaly_list(h, sigs.drop_last());
        match anomaly_of(sigs.last(), series_for(h, sigs.last())) {
            Some(t) => rest.push(t),
            None => rest,
        }
    }
}

/// The note for an anomalous reading.
fn anomaly_message(s: Signal, current: i64, z: i128, pct: i64) -> (r: String)
    requires
        -0x1_0000_0000_0000_0000_0000_0000 <= z <= 0x1_0000_0000_0000_0000_0000_0000,
        pct >= 0,
    ensures
        r@ == anomaly_text(s, current, z as int, pct as int),
{
    let mut out: Vec<char> = Vec::new();
    push_str(&mut out, s.friendly());
    push_str(&mut out, " current reading (");
    push_fixed2(&mut out, current, false);
    push_str(&mut out, ") is ");
    let mag: u128 = if z < 0 {
        (-z) as u128
    } else {
        z as u128
    };
    push_fixed1(&mut out, mag);
    push_str(&mut out, " std devs ");
    if z > 0 {
        push_str(&mut out, "above");
    } else {
        push_str(&mut out, "below");
    }
    push_str(&mut out, " mean (");
    push_decimal(&mut out, (pct / 1_000_000) as u128);
    push_str(&mut out, "th percentile)");
    let ghost side = if z > 0 {
        "above"@
    } else {
        "below"@
    };
    assert(out@ =~= signal_friendly(s) + " current reading ("@ + fixed2_text(current as int, false)
        + ") is "@ + fixed1_text(abs(z as int) as int) + " std devs "@ + side + " mean ("@ + decimal(
        (pct / 1_000_000) as nat,
    ) + "th percentile)"@);
    string_of(&out)
}

/// The anomaly note for signal `s` over its series, if its latest reading
/// is anomalous.
pub fn anomaly_for(s: Signal, series: &Vec<i64>) -> (r: Option<String>)
    ensures
        match anomaly_of(s, series@) {
            Some(t) => r matches Some(m) && m@ == t,
            None => r is None,
        },
{
    if series.len() < MIN_ANOMALY_POINTS {
        return None;
    }
    let m = match mean(series) {
        Some(m) => m,
        None => return None,
    };
    let sd = match std_dev(series) {
        Some(sd) => sd,
        None => return None,
    };
    if sd == 0 {
        return None;
    }
    let cur = series[series.len() - 1];
    let z = z_score(cur, m, sd);
    proof {
        assert(series@.last() == series@[series.len() - 1]);
        let d = cur - m;
        assert(-0x1_0000_0000_0000_0000 <= d <= 0x1_0000_0000_0000_0000);
        assert(-0x1_0000_0000_0000_0000 * 1_000_000 <= d * 1_000_000 <= 0x1_0000_0000_0000_0000
            * 1_000_000) by (nonlinear_arith)
            requires -0x1_0000_0000_0000_0000 <= d <= 0x1_0000_0000_0000_0000;
        assert(-0x1_0000_0000_0000_0000 * 1_000_000 <= (d * 1_000_000) / (sd as int)
            <= 0x1_0000_0000_0000_0000 * 1_000_000) by (nonlinear_arith)
            requires
                -0x1_0000_0000_0000_0000 * 1_000_000 <= d * 1_000_000 <= 0x1_0000_0000_0000_0000
                    * 1_000_000,
                sd >= 1,
        ;
    }
    let big = if z < 0 {
        -z
    } else {
        z
    };
    if big >= ANOMALY_Z {
        let pct = percentile_rank(cur, series);
        Some(anomaly_message(s, cur, z, pct))
    } else {
        None
    }
}

/// The notes of the signals whose latest reading lies two standard
/// deviations or more from their mean, in signal order.
pub fn detect_anomalies(history: &Vec<SignalVector>) -> (r: Vec<String>)
    ensures
        r.deep_view() == anomaly_list(history@, all_signals()),
{
    let sigs = signal_list();
    let mut out: Vec<String> = Vec::new();
    let mut i: usize = 0;
    while i < sigs.len()
        invariant
            i <= sigs.len(),
            sigs@ == all_signals(),
            out.deep_view() == anomaly_list(history@, sigs@.subrange(0, i as int)),
        decreases sigs.len() - i,
    {
        let s = sigs[i];
        let series = signal_series(history, s.key());
        proof {
            lemma_key_round_trip(s);
        }
        assert(sigs@.subrange(0, i + 1).drop_last() == sigs@.subrange(0, i as int));
        assert(sigs@.subrange(0, i + 1).last() == s);
        match anomaly_for(s, &series) {
            Some(note) => {
                let ghost before = out.deep_view();
                let ghost t = note@;
                out.push(note);
                assert(out.deep_view() =~= before.push(t));
            },
            None => {},
        }
        i += 1;
    }
    assert(sigs@.subrange(0, 4) == sigs@);
    out
}

} // verus!
