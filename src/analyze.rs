//! Trend analysis over the history of signal snapshots.
use vstd::prelude::*;

use crate::clock::now_iso;
use crate::format::{fixed0_text, fixed2_text, push_fixed0, push_fixed2};
use crate::state::{
    all_signals, signal_friendly, signal_key, signal_list, AlertLevel, Analysis, Config, Signal,
    SignalTrend, SignalVector, ThresholdPair, Trend,
};
use crate::text::{push_str, string_of};

verus! {

/// Recent snapshots that make a trend's "recent" sub-window.
pub const RECENT: usize = 3;

/// How far, in millionths, the second half's mean must fall below the
/// first half's for a sustained decline.
pub const SUSTAINED_DROP: i64 = 100_000;

/// Every present value of every snapshot is non-negative.
pub open spec fn history_wf(h: Seq<SignalVector>) -> bool {
    forall|i: int| 0 <= i < h.len() ==> (#[trigger] h[i]).signals.wf()
}

/// The trailing `w` snapshots of `h` (all of them when there are fewer).
pub open spec fn window_of(h: Seq<SignalVector>, w: nat) -> Seq<SignalVector> {
    let n = if w < h.len() {
        w as int
    } else {
        h.len() as int
    };
    h.subrange(h.len() - n, h.len() as int)
}

/// The values of signal `s` across `h`, absent ones included.
pub open spec fn series_of(h: Seq<SignalVector>, s: Signal) -> Seq<Option<i64>> {
    h.map_values(|v: SignalVector| v.signals.get(s))
}

pub open spec fn present_count(vals: Seq<Option<i64>>) -> nat
    decreases vals.len(),
{
    if vals.len() == 0 {
        0
    } else {
        present_count(vals.drop_last()) + if vals.last() is Some {
            1nat
        } else {
            0nat
        }
    }
}

pub open spec fn present_sum(vals: Seq<Option<i64>>) -> int
    decreases vals.len(),
{
    if vals.len() == 0 {
        0
    } else {
        present_sum(vals.drop_last()) + match vals.last() {
            Some(v) => v as int,
            None => 0,
        }
    }
}

/// Mean of the present values, rounded down; absent when none is present.
pub open spec fn mean_of(vals: Seq<Option<i64>>) -> Option<int> {
    if present_count(vals) == 0 {
        None
    } else {
        Some(present_sum(vals) / (present_count(vals) as int))
    }
}

/// The direction of a delta against a signal's thresholds.
pub open spec fn classify(d: int, th: ThresholdPair) -> Trend {
    if d < th.decline {
        Trend::Declining
    } else if d > th.improve {
        Trend::Improving
    } else {
        Trend::Stable
    }
}

/// The last value of a series, if the series is not empty.
pub open spec fn last_value(vals: Seq<Option<i64>>) -> Option<i64> {
    if vals.len() > 0 {
        vals.last()
    } else {
        None
    }
}

/// The trend of one signal from its windowed series. With fewer than three
/// present values, Stable with delta 0 when the latest slot has a value and
/// nothing otherwise. Else the mean of the last three slots against the
/// mean of those before (the recent mean again when there are none).
pub open spec fn signal_trend(vals: Seq<Option<i64>>, th: ThresholdPair) -> Option<SignalTrend> {
    let current = last_value(vals);
    if present_count(vals) < 3 {
        match current {
            Some(c) => Some(SignalTrend { current: Some(c), trend: Trend::Stable, delta: 0 }),
            None => None,
        }
    } else {
        let k = vals.len() - 3;
        let recent = mean_of(vals.subrange(k, vals.len() as int));
        let baseline = if k == 0 {
            recent
        } else {
            mean_of(vals.subrange(0, k))
        };
        match (recent, baseline) {
            (Some(r), Some(b)) => Some(
                SignalTrend { current, trend: classify(r - b, th), delta: (r - b) as i64 },
            ),
            _ => Some(SignalTrend { current, trend: Trend::Stable, delta: 0 }),
        }
    }
}

/// Each signal, in order, with its trend over the configured window.
pub open spec fn per_signal(h: Seq<SignalVector>, c: Config) -> Seq<(Signal, Option<SignalTrend>)> {
    all_signals().map_values(
        |s: Signal|
            (s, signal_trend(series_of(window_of(h, c.window_size as nat), s), c.thresholds.get(s))),
    )
}

/// The signals that have a trend, with it, in order.
pub open spec fn entries_from(ps: Seq<(Signal, Option<SignalTrend>)>) -> Seq<(Signal, SignalTrend)>
    decreases ps.len(),
{
    if ps.len() == 0 {
        seq![]
    } else {
        let rest = entries_from(ps.drop_last());
        match ps.last().1 {
            Some(t) => rest.push((ps.last().0, t)),
            None => rest,
        }
    }
}

/// How many of `es` have trend `t`.
pub open spec fn count_trend(es: Seq<(Signal, SignalTrend)>, t: Trend) -> nat
    decreases es.len(),
{
    if es.len() == 0 {
        0
    } else {
        count_trend(es.drop_last(), t) + if es.last().1.trend == t {
            1nat
        } else {
            0nat
        }
    }
}

/// The improving signal with the largest delta (the first one among equals).
pub open spec fn best_rise(es: Seq<(Signal, SignalTrend)>) -> Option<(Signal, i64)>
    decreases es.len(),
{
    if es.len() == 0 {
        None
    } else {
        let b = best_rise(es.drop_last());
        let (s, t) = es.last();
        let beats = match b {
            Some(p) => t.delta > p.1,
            None => true,
        };
        if t.trend == Trend::Improving && beats {
            Some((s, t.delta))
        } else {
            b
        }
    }
}

/// What a declining signal suggests.
pub open spec fn decline_reason(s: Signal) -> Seq<char> {
    match s {
        Signal::VocabularyDiversity => "reflections reusing the same words"@,
        Signal::QuestionGeneration => "fewer new questions being asked"@,
        Signal::ThoughtLifecycle => "thoughts accumulating without resolution"@,
        Signal::EvidenceGrounding => "conclusions drifting from concrete inputs"@,
    }
}

/// The watch message of a declining signal: its key, its current value
/// with two decimals (`?` when absent), the signed delta (a whole number
/// for the question count, two decimals otherwise) and what it suggests.
pub open spec fn decline_text(s: Signal, current: Option<i64>, delta: i64) -> Seq<char> {
    let val = match current {
        Some(v) => fixed2_text(v as int, false),
        None => "?"@,
    };
    let d = if s == Signal::QuestionGeneration {
        fixed0_text(delta as int, true)
    } else {
        fixed2_text(delta as int, true)
    };
    signal_key(s) + " at "@ + val + " ("@ + d + ") \u{2014} "@ + decline_reason(s)
}

/// The highlight for the best improving signal.
pub open spec fn highlight_text(s: Signal, delta: i64) -> Seq<char> {
    signal_friendly(s) + " trending up (+"@ + fixed2_text(delta as int, false) + ")"@
}

/// The watch messages of the declining signals, in order.
pub open spec fn watch_list(es: Seq<(Signal, SignalTrend)>) -> Seq<Seq<char>>
    decreases es.len(),
{
    if es.len() == 0 {
        seq![]
    } else {
        let rest = watch_list(es.drop_last());
        let (s, t) = es.last();
        if t.trend == Trend::Declining {
            rest.push(decline_text(s, t.current, t.delta))
        } else {
            rest
        }
    }
}

/// The alert level from the number of declining signals alone.
pub open spec fn base_level(declining: nat) -> AlertLevel {
    if declining >= 3 {
        AlertLevel::Concern
    } else if declining >= 1 {
        AlertLevel::Watch
    } else {
        AlertLevel::Healthy
    }
}

/// A series with at least four present values, split by slots into a first
/// and a second half, whose second half's present values have a mean more
/// than `SUSTAINED_DROP` below the first half's.
pub open spec fn falls(vals: Seq<Option<i64>>) -> bool {
    let half = vals.len() / 2;
    present_count(vals) >= 4 && match (
        mean_of(vals.subrange(0, half as int)),
        mean_of(vals.subrange(half as int, vals.len() as int)),
    ) {
        (Some(f), Some(s)) => s < f - SUSTAINED_DROP,
        _ => false,
    }
}

/// Some signal falls over the trailing `n` snapshots of `h`.
pub open spec fn sustained_decline(h: Seq<SignalVector>, n: nat) -> bool {
    exists|s: Signal| falls(#[trigger] series_of(h.subrange(h.len() - n, h.len() as int), s))
}

/// The alert level: the base level, raised from Concern to Alert when the
/// history holds at least `after` snapshots and their trailing `after`
/// show a sustained decline.
pub open spec fn alert_level_of(declining: nat, h: Seq<SignalVector>, after: nat) -> AlertLevel {
    let base = base_level(declining);
    if base == AlertLevel::Concern && h.len() >= after {
        if sustained_decline(h, after) {
            AlertLevel::Alert
        } else {
            AlertLevel::Concern
        }
    } else {
        base
    }
}

pub open spec fn opt_view(o: Option<String>) -> Option<Seq<char>> {
    match o {
        Some(s) => Some(s@),
        None => None,
    }
}

/// Everything `run_at` computes from the history and the configuration.
pub open spec fn analysis_matches(r: Analysis, h: Seq<SignalVector>, c: Config) -> bool {
    let es = entries_from(per_signal(h, c));
    &&& r.signals@ == es
    &&& r.improving_count == count_trend(es, Trend::Improving)
    &&& r.stable_count == count_trend(es, Trend::Stable)
    &&& r.declining_count == count_trend(es, Trend::Declining)
    &&& r.alert_level == alert_level_of(
        count_trend(es, Trend::Declining),
        h,
        c.alert_after_sessions as nat,
    )
    &&& opt_view(r.highlight) == match best_rise(es) {
        Some((s, d)) => Some(highlight_text(s, d)),
        None => None,
    }
    &&& r.watch_messages.deep_view() == watch_list(es)
    &&& r.data_points == h.len()
}

// ------------------------------------------------------------ execution --

/// The values of signal `s` in `h[lo..]`.
fn series_from(h: &Vec<SignalVector>, lo: usize, s: Signal) -> (r: Vec<Option<i64>>)
    requires
        lo <= h.len(),
    ensures
        r@ == series_of(h@.subrange(lo as int, h.len() as int), s),
{
    let mut r: Vec<Option<i64>> = Vec::new();
    let mut i: usize = lo;
    while i < h.len()
        invariant
            lo <= i <= h.len(),
            r@ =~= series_of(h@.subrange(lo as int, i as int), s),
        decreases h.len() - i,
    {
        r.push(h[i].signals.value(s));
        i += 1;
        assert(r@ =~= series_of(h@.subrange(lo as int, i as int), s));
    }
    r
}

/// All present values of `vals` are non-negative.
pub open spec fn nonneg(vals: Seq<Option<i64>>) -> bool {
    forall|i: int| 0 <= i < vals.len() ==> ((#[trigger] vals[i]) matches Some(v) ==> v >= 0)
}

proof fn lemma_series_nonneg(h: Seq<SignalVector>, lo: int, hi: int, s: Signal)
    requires
        history_wf(h),
        0 <= lo <= hi <= h.len(),
    ensures
        nonneg(series_of(h.subrange(lo, hi), s)),
{
    assert forall|i: int| 0 <= i < hi - lo implies ((#[trigger] series_of(h.subrange(lo, hi), s)[i]) matches Some(v) ==> v >= 0) by {
        assert(h.subrange(lo, hi)[i] == h[lo + i]);
        assert(h[lo + i].signals.wf());
        assert(h[lo + i].signals.get(s) == series_of(h.subrange(lo, hi), s)[i]);
    }
}

/// Mean of the present values of `vals[lo..hi]`, rounded down.
fn mean_between(vals: &Vec<Option<i64>>, lo: usize, hi: usize) -> (r: Option<i64>)
    requires
        lo <= hi <= vals.len(),
        nonneg(vals@),
    ensures
        match (r, mean_of(vals@.subrange(lo as int, hi as int))) {
            (Some(a), Some(b)) => a as int == b && a >= 0,
            (None, None) => true,
            _ => false,
        },
{
    let mut sum: u128 = 0;
    let mut count: u64 = 0;
    let mut i: usize = lo;
    while i < hi
        invariant
            lo <= i <= hi <= vals.len(),
            nonneg(vals@),
            count <= i - lo,
            sum as int == present_sum(vals@.subrange(lo as int, i as int)),
            count as int == present_count(vals@.subrange(lo as int, i as int)),
            sum <= count as int * 0x7fff_ffff_ffff_ffff,
        decreases hi - i,
    {
        assert(vals@.subrange(lo as int, i + 1).drop_last() == vals@.subrange(lo as int, i as int));
        match vals[i] {
            Some(v) => {
                assert(vals@[i as int] matches Some(w) ==> w >= 0);
                proof {
                    assert((count as int + 1) * 0x7fff_ffff_ffff_ffff == count as int
                        * 0x7fff_ffff_ffff_ffff + 0x7fff_ffff_ffff_ffff) by (nonlinear_arith);
                    assert(count as int * 0x7fff_ffff_ffff_ffff <= 0xffff_ffff_ffff_ffff
                        * 0x7fff_ffff_ffff_ffff) by (nonlinear_arith)
                        requires count <= 0xffff_ffff_ffff_ffff;
                }
                sum = sum + v as u128;
                count = count + 1;
            },
            None => {},
        }
        i += 1;
    }
    if count == 0 {
        return None;
    }
    let m: u128 = sum / (count as u128);
    proof {
        assert(sum as int / count as int <= 0x7fff_ffff_ffff_ffff) by (nonlinear_arith)
            requires sum <= count as int * 0x7fff_ffff_ffff_ffff, count > 0;
        assert(sum as int / count as int >= 0) by (nonlinear_arith)
            requires sum >= 0, count > 0;
    }
    Some(m as i64)
}

fn count_present(vals: &Vec<Option<i64>>) -> (r: usize)
    ensures
        r == present_count(vals@),
{
    let mut n: usize = 0;
    let mut i: usize = 0;
    while i < vals.len()
        invariant
            i <= vals.len(),
            n <= i,
            n == present_count(vals@.subrange(0, i as int)),
        decreases vals.len() - i,
    {
        assert(vals@.subrange(0, i + 1).drop_last() == vals@.subrange(0, i as int));
        if vals[i].is_some() {
            n += 1;
        }
        i += 1;
    }
    assert(vals@.subrange(0, vals.len() as int) == vals@);
    n
}

fn classify_delta(d: i64, th: ThresholdPair) -> (r: Trend)
    ensures
        r == classify(d as int, th),
{
    if d < th.decline {
        Trend::Declining
    } else if d > th.improve {
        Trend::Improving
    } else {
        Trend::Stable
    }
}

/// The trend of one signal from its windowed series.
pub fn trend_for(vals: &Vec<Option<i64>>, th: ThresholdPair) -> (r: Option<SignalTrend>)
    requires
        nonneg(vals@),
    ensures
        r == signal_trend(vals@, th),
{
    let current = if vals.len() > 0 {
        vals[vals.len() - 1]
    } else {
        None
    };
    if count_present(vals) < 3 {
        return match current {
            Some(c) => Some(SignalTrend { current: Some(c), trend: Trend::Stable, delta: 0 }),
            None => None,
        };
    }
    proof {
        lemma_count_le_len(vals@);
    }
    let k = vals.len() - RECENT;
    let recent = mean_between(vals, k, vals.len());
    let baseline = if k == 0 {
        recent
    } else {
        mean_between(vals, 0, k)
    };
    match (recent, baseline) {
        (Some(r), Some(b)) => {
            let d: i64 = r - b;
            Some(SignalTrend { current, trend: classify_delta(d, th), delta: d })
        },
        _ => Some(SignalTrend { current, trend: Trend::Stable, delta: 0 }),
    }
}

proof fn lemma_count_le_len(vals: Seq<Option<i64>>)
    ensures
        present_count(vals) <= vals.len(),
    decreases vals.len(),
{
    if vals.len() > 0 {
        lemma_count_le_len(vals.drop_last());
    }
}

/// Whether the series falls by more than `SUSTAINED_DROP` from its first
/// half to its second.
fn falls_exec(vals: &Vec<Option<i64>>) -> (r: bool)
    requires
        nonneg(vals@),
    ensures
        r == falls(vals@),
{
    if count_present(vals) < 4 {
        return false;
    }
    let half = vals.len() / 2;
    let first = mean_between(vals, 0, half);
    let second = mean_between(vals, half, vals.len());
    match (first, second) {
        (Some(f), Some(s)) => s < f - SUSTAINED_DROP,
        _ => false,
    }
}

/// Whether some signal falls over the trailing `n` snapshots of `h`.
fn sustained(h: &Vec<SignalVector>, n: usize) -> (r: bool)
    requires
        n <= h.len(),
        history_wf(h@),
    ensures
        r == sustained_decline(h@, n as nat),
{
    let sigs = signal_list();
    let lo = h.len() - n;
    let mut i: usize = 0;
    while i < sigs.len()
        invariant
            i <= sigs.len(),
            sigs@ == all_signals(),
            lo == h.len() - n,
            n <= h.len(),
            history_wf(h@),
            forall|j: int| 0 <= j < i ==> !falls(#[trigger] series_of(h@.subrange(lo as int, h.len() as int), sigs@[j])),
        decreases sigs.len() - i,
    {
        let vals = series_from(h, lo, sigs[i]);
        proof {
            lemma_series_nonneg(h@, lo as int, h.len() as int, sigs@[i as int]);
        }
        if falls_exec(&vals) {
            return true;
        }
        i += 1;
    }
    proof {
        assert forall|s: Signal| !falls(#[trigger] series_of(h@.subrange(lo as int, h.len() as int), s)) by {
            match s {
                Signal::VocabularyDiversity => assert(sigs@[0] == s),
                Signal::QuestionGeneration => assert(sigs@[1] == s),
                Signal::ThoughtLifecycle => assert(sigs@[2] == s),
                Signal::EvidenceGrounding => assert(sigs@[3] == s),
            }
        }
    }
    false
}

/// The alert level for `declining` declining signals over history `h`.
pub fn alert_level(declining: usize, h: &Vec<SignalVector>, alert_after_sessions: usize) -> (r:
    AlertLevel)
    requires
        history_wf(h@),
    ensures
        r == alert_level_of(declining as nat, h@, alert_after_sessions as nat),
{
    let base = if declining >= 3 {
        AlertLevel::Concern
    } else if declining >= 1 {
        AlertLevel::Watch
    } else {
        AlertLevel::Healthy
    };
    if base == AlertLevel::Concern && h.len() >= alert_after_sessions {
        if sustained(h, alert_after_sessions) {
            AlertLevel::Alert
        } else {
            AlertLevel::Concern
        }
    } else {
        base
    }
}

/// The watch message for a declining signal.
pub fn decline_message(s: Signal, current: Option<i64>, delta: i64) -> (r: String)
    ensures
        r@ == decline_text(s, current, delta),
{
    let mut out: Vec<char> = Vec::new();
    push_str(&mut out, s.key());
    push_str(&mut out, " at ");
    match current {
        Some(v) => push_fixed2(&mut out, v, false),
        None => push_str(&mut out, "?"),
    }
    push_str(&mut out, " (");
    if s == Signal::QuestionGeneration {
        push_fixed0(&mut out, delta, true);
    } else {
        push_fixed2(&mut out, delta, true);
    }
    push_str(&mut out, ") \u{2014} ");
    let reason = match s {
        Signal::VocabularyDiversity => "reflections reusing the same words",
        Signal::QuestionGeneration => "fewer new questions being asked",
        Signal::ThoughtLifecycle => "thoughts accumulating without resolution",
        Signal::EvidenceGrounding => "conclusions drifting from concrete inputs",
    };
    push_str(&mut out, reason);
    let ghost val = match current {
        Some(v) => fixed2_text(v as int, false),
        None => "?"@,
    };
    let ghost d = if s == Signal::QuestionGeneration {
        fixed0_text(delta as int, true)
    } else {
        fixed2_text(delta as int, true)
    };
    assert(out@ =~= signal_key(s) + " at "@ + val + " ("@ + d + ") \u{2014} "@ + decline_reason(s));
    string_of(&out)
}

/// The highlight for an improving signal.
pub fn highlight_message(s: Signal, delta: i64) -> (r: String)
    ensures
        r@ == highlight_text(s, delta),
{
    let mut out: Vec<char> = Vec::new();
    push_str(&mut out, s.friendly());
    push_str(&mut out, " trending up (+");
    push_fixed2(&mut out, delta, false);
    push_str(&mut out, ")");
    assert(out@ =~= highlight_text(s, delta));
    string_of(&out)
}

/// Trend analysis of `history` under `config`, stamped with `timestamp`.
///
/// Each signal is classified over the trailing `window_size` snapshots;
/// the counts, the best improving signal, the watch messages of the
/// declining ones and the alert level follow from those trends.
pub fn run_at(history: &Vec<SignalVector>, config: &Config, timestamp: String) -> (r: Analysis)
    requires
        history_wf(history@),
    ensures
        analysis_matches(r, history@, *config),
        r.timestamp@ == timestamp@,
{
    let ghost h = history@;
    let ghost c = *config;
    let ghost ps = per_signal(h, c);
    let n = if config.window_size < history.len() {
        config.window_size
    } else {
        history.len()
    };
    let lo = history.len() - n;
    let sigs = signal_list();
    let mut entries: Vec<(Signal, SignalTrend)> = Vec::new();
    let mut i: usize = 0;
    while i < sigs.len()
        invariant
            i <= sigs.len(),
            sigs@ == all_signals(),
            ps == per_signal(h, c),
            h == history@,
            c == *config,
            history_wf(h),
            lo == history.len() - n,
            window_of(h, c.window_size as nat) == h.subrange(lo as int, h.len() as int),
            entries@ == entries_from(ps.subrange(0, i as int)),
        decreases sigs.len() - i,
    {
        let s = sigs[i];
        let vals = series_from(history, lo, s);
        proof {
            lemma_series_nonneg(h, lo as int, h.len() as int, s);
        }
        let t = trend_for(&vals, config.thresholds.pair(s));
        assert(ps[i as int] == (s, t));
        assert(ps.subrange(0, i + 1).drop_last() == ps.subrange(0, i as int));
        match t {
            Some(t) => entries.push((s, t)),
            None => {},
        }
        i += 1;
    }
    assert(ps.subrange(0, 4) == ps);
    let ghost es = entries@;
    let mut improving: usize = 0;
    let mut stable: usize = 0;
    let mut declining: usize = 0;
    let mut best: Option<(Signal, i64)> = None;
    let mut watch: Vec<String> = Vec::new();
    let mut j: usize = 0;
    while j < entries.len()
        invariant
            j <= entries.len(),
            es == entries@,
            improving <= j && stable <= j && declining <= j,
            improving == count_trend(es.subrange(0, j as int), Trend::Improving),
            stable == count_trend(es.subrange(0, j as int), Trend::Stable),
            declining == count_trend(es.subrange(0, j as int), Trend::Declining),
            best == best_rise(es.subrange(0, j as int)),
            watch.deep_view() == watch_list(es.subrange(0, j as int)),
        decreases entries.len() - j,
    {
        let (s, t) = entries[j];
        assert(es.subrange(0, j + 1).drop_last() == es.subrange(0, j as int));
        assert(es.subrange(0, j + 1).last() == (s, t));
        match t.trend {
            Trend::Improving => {
                improving += 1;
                let beats = match best {
                    Some(p) => t.delta > p.1,
                    None => true,
                };
                if beats {
                    best = Some((s, t.delta));
                }
            },
            Trend::Declining => {
                declining += 1;
                let msg = decline_message(s, t.current, t.delta);
                let ghost before = watch.deep_view();
                watch.push(msg);
                assert(watch.deep_view() =~= before.push(decline_text(s, t.current, t.delta)));
            },
            Trend::Stable => {
                stable += 1;
            },
        }
        j += 1;
    }
    assert(es.subrange(0, entries.len() as int) == es);
    let level = alert_level(declining, history, config.alert_after_sessions);
    let highlight = match best {
        Some((s, d)) => Some(highlight_message(s, d)),
        None => None,
    };
    Analysis {
        timestamp,
        alert_level: level,
        signals: entries,
        improving_count: improving,
        stable_count: stable,
        declining_count: declining,
        highlight,
        watch_messages: watch,
        data_points: history.len(),
    }
}

/// Trend analysis of `history` under `config`, stamped with the current time.
pub fn run(history: &Vec<SignalVector>, config: &Config) -> (r: Analysis)
    requires
        history_wf(history@),
    ensures
        analysis_matches(r, history@, *config),
{
    run_at(history, config, now_iso())
}

// ---------------------------------------------------------------- laws --

proof fn lemma_entries_from(ps: Seq<(Signal, Option<SignalTrend>)>)
    ensures
        forall|k: int|
            0 <= k < entries_from(ps).len() ==> exists|i: int|
                0 <= i < ps.len() && (#[trigger] ps[i]).0 == (#[trigger] entries_from(ps)[k]).0
                    && ps[i].1 == Some(entries_from(ps)[k].1),
    decreases ps.len(),
{
    if ps.len() > 0 {
        let pre = ps.drop_last();
        lemma_entries_from(pre);
        assert forall|k: int| 0 <= k < entries_from(ps).len() implies exists|i: int|
            0 <= i < ps.len() && (#[trigger] ps[i]).0 == (#[trigger] entries_from(ps)[k]).0
                && ps[i].1 == Some(entries_from(ps)[k].1) by {
            if k < entries_from(pre).len() {
                let i = choose|i: int|
                    0 <= i < pre.len() && (#[trigger] pre[i]).0 == (#[trigger] entries_from(pre)[k]).0
                        && pre[i].1 == Some(entries_from(pre)[k].1);
                assert(ps[i] == pre[i]);
            } else {
                assert(ps[ps.len() - 1] == ps.last());
            }
        }
    }
}

proof fn lemma_entry_source(h: Seq<SignalVector>, c: Config, k: int)
    requires
        0 <= k < entries_from(per_signal(h, c)).len(),
    ensures
        ({
            let (s, t) = entries_from(per_signal(h, c))[k];
            signal_trend(series_of(window_of(h, c.window_size as nat), s), c.thresholds.get(s))
                == Some(t)
        }),
{
    let ps = per_signal(h, c);
    lemma_entries_from(ps);
    let i = choose|i: int|
        0 <= i < ps.len() && (#[trigger] ps[i]).0 == (#[trigger] entries_from(ps)[k]).0 && ps[i].1
            == Some(entries_from(ps)[k].1);
    assert(ps[i].0 == all_signals()[i]);
}

/// A signal with fewer than three present values in the window is Stable
/// with a delta of exactly zero, whenever it appears in the analysis.
pub proof fn lemma_sparse_signal_is_stable(r: Analysis, h: Seq<SignalVector>, c: Config, s: Signal)
    requires
        analysis_matches(r, h, c),
        present_count(series_of(window_of(h, c.window_size as nat), s)) < 3,
    ensures
        forall|k: int|
            0 <= k < r.signals@.len() && (#[trigger] r.signals@[k]).0 == s ==> r.signals@[k].1.trend
                == Trend::Stable && r.signals@[k].1.delta == 0,
{
    assert forall|k: int|
        0 <= k < r.signals@.len() && (#[trigger] r.signals@[k]).0 == s implies r.signals@[k].1.trend
            == Trend::Stable && r.signals@[k].1.delta == 0 by {
        lemma_entry_source(h, c, k);
    }
}

/// With an empty baseline (three slots or fewer), the baseline mean is the
/// recent mean: the delta is zero and the trend Stable, for thresholds on
/// either side of zero.
pub proof fn lemma_empty_baseline_is_stable(vals: Seq<Option<i64>>, th: ThresholdPair)
    requires
        vals.len() <= RECENT,
        th.decline <= 0 <= th.improve,
    ensures
        signal_trend(vals, th) matches Some(t) ==> t.trend == Trend::Stable && t.delta == 0,
{
    lemma_count_le_len(vals);
}

/// With a window of three snapshots or fewer, and thresholds on either side
/// of zero, every signal in the analysis is Stable with a delta of zero.
pub proof fn lemma_short_window_is_stable(r: Analysis, h: Seq<SignalVector>, c: Config)
    requires
        analysis_matches(r, h, c),
        c.window_size <= RECENT || h.len() <= RECENT,
        forall|s: Signal| (#[trigger] c.thresholds.get(s)).decline <= 0 <= c.thresholds.get(s).improve,
    ensures
        forall|k: int|
            0 <= k < r.signals@.len() ==> (#[trigger] r.signals@[k]).1.trend == Trend::Stable
                && r.signals@[k].1.delta == 0,
{
    assert forall|k: int| 0 <= k < r.signals@.len() implies (#[trigger] r.signals@[k]).1.trend
        == Trend::Stable && r.signals@[k].1.delta == 0 by {
        lemma_entry_source(h, c, k);
        let s = r.signals@[k].0;
        lemma_empty_baseline_is_stable(
            series_of(window_of(h, c.window_size as nat), s),
            c.thresholds.get(s),
        );
    }
}

/// The alert level: Concern exactly when three or more signals decline and
/// the sustained-decline check fails or is not made (fewer snapshots than
/// `alert_after_sessions`); Alert exactly when three or more decline and,
/// over the trailing `alert_after_sessions` snapshots, some signal has at
/// least four present values and a sustained decline between the halves;
/// Watch for one or two declining signals, Healthy for none.
pub proof fn lemma_alert_escalation(r: Analysis, h: Seq<SignalVector>, c: Config)
    requires
        analysis_matches(r, h, c),
    ensures
        ({
            let n = c.alert_after_sessions as nat;
            let checked = h.len() >= n && sustained_decline(h, n);
            &&& r.alert_level == AlertLevel::Concern <==> (r.declining_count >= 3 && !checked)
            &&& r.alert_level == AlertLevel::Alert <==> (r.declining_count >= 3 && checked)
            &&& r.alert_level == AlertLevel::Watch <==> (1 <= r.declining_count < 3)
            &&& r.alert_level == AlertLevel::Healthy <==> r.declining_count == 0
            &&& checked ==> exists|s: Signal|
                present_count(
                    #[trigger] series_of(h.subrange(h.len() - n, h.len() as int), s),
                ) >= 4
        }),
{
}

} // verus!
