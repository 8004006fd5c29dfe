use vigil_echo::state::{SignalVector, Signals};
use vigil_echo::stats::{mean, percentile_rank, signal_series, sparkline, streak, z_score};

#[test]
fn mean_basic() {
    assert_eq!(mean(&vec![1_000_000, 2_000_000, 3_000_000]), Some(2_000_000));
    assert_eq!(mean(&vec![]), None);
}

#[test]
fn mean_rounds_down() {
    assert_eq!(mean(&vec![1, 2]), Some(1));
    assert_eq!(mean(&vec![-1, -2]), Some(-2));
    assert_eq!(mean(&vec![i64::MAX, i64::MAX]), Some(i64::MAX));
    assert_eq!(mean(&vec![i64::MIN, i64::MIN]), Some(i64::MIN));
}

#[test]
fn percentile_rank_basic() {
    let values = vec![1_000_000, 2_000_000, 3_000_000, 4_000_000, 5_000_000];
    let pct = |v: i64| percentile_rank(v, &values) as f64 / 1e6;
    assert!((pct(3_000_000) - 50.0).abs() < 1.0);
    assert!(pct(5_000_000) > 80.0);
    assert!(pct(1_000_000) < 20.0);
}

#[test]
fn percentile_rank_exact_and_monotonic() {
    let values = vec![10, 20, 20, 30];
    assert_eq!(percentile_rank(20, &values), 50_000_000);
    assert_eq!(percentile_rank(5, &values), 0);
    assert_eq!(percentile_rank(35, &values), 100_000_000);
    assert_eq!(percentile_rank(7, &vec![]), 50_000_000);
    let mut last = 0;
    for v in 0..40 {
        let p = percentile_rank(v, &values);
        assert!(p >= last);
        last = p;
    }
}

#[test]
fn sparkline_flat() {
    let spark = sparkline(&vec![5_000_000, 5_000_000, 5_000_000, 5_000_000], 4);
    assert_eq!(spark, "▄▄▄▄");
}

#[test]
fn sparkline_ascending() {
    let spark = sparkline(&vec![0, 500_000, 1_000_000], 3);
    assert_eq!(spark, "▁▅█");
}

#[test]
fn sparkline_empty() {
    assert_eq!(sparkline(&vec![], 10), "");
}

#[test]
fn sparkline_single() {
    let spark = sparkline(&vec![3_000_000], 1);
    assert_eq!(spark, "▄");
}

#[test]
fn sparkline_subsamples_long_series() {
    let values: Vec<i64> = (0..100).map(|i| i * 1_000_000).collect();
    let spark = sparkline(&values, 10);
    assert_eq!(spark.chars().count(), 10);
    assert_eq!(spark.chars().next(), Some('▁'));
    assert_eq!(spark.chars().last(), Some('█'));
}

#[test]
fn sparkline_width_and_extremes() {
    let values = vec![4, 0, 7, 7, 1, 3, 0, 2];
    let spark = sparkline(&values, 8);
    assert_eq!(spark, "▅▁██▂▄▁▃");
    assert_eq!(sparkline(&values, 0), "");
    // shorter than the width: stretched to the width
    assert_eq!(sparkline(&vec![1, 2], 5), "▁▁▁▁█");
    assert_eq!(sparkline(&vec![3], 2), "▄▄");
}

#[test]
fn streak_ascending() {
    let (dir, count) = streak(&vec![1, 2, 3, 4]);
    assert_eq!(dir, 1);
    assert_eq!(count, 3);
}

#[test]
fn streak_descending() {
    let (dir, count) = streak(&vec![4, 3, 2, 1]);
    assert_eq!(dir, -1);
    assert_eq!(count, 3);
}

#[test]
fn streak_flat() {
    let (dir, count) = streak(&vec![5, 5, 5, 5]);
    assert_eq!(dir, 0);
    assert_eq!(count, 4);
}

#[test]
fn streak_too_short() {
    let (dir, count) = streak(&vec![5]);
    assert_eq!(dir, 0);
    assert_eq!(count, 0);
    assert_eq!(streak(&vec![]), (0, 0));
}

#[test]
fn streak_trailing_run_only() {
    assert_eq!(streak(&vec![9, 1, 2, 3]), (1, 2));
    assert_eq!(streak(&vec![1, 2, 2, 2]), (0, 3));
    assert_eq!(streak(&vec![3, 3, 1]), (-1, 1));
}

#[test]
fn signal_series_extracts() {
    let history = vec![SignalVector {
        timestamp: "2026-01-01T00:00:00Z".into(),
        trigger: "test".into(),
        signals: Signals {
            vocabulary_diversity: Some(500_000),
            question_generation: Some(3_000_000),
            thought_lifecycle: None,
            evidence_grounding: Some(800_000),
        },
        document_hashes: Vec::new(),
    }];
    assert_eq!(signal_series(&history, "vocabulary_diversity"), vec![500_000]);
    assert!(signal_series(&history, "thought_lifecycle").is_empty());
    assert!(signal_series(&history, "unknown").is_empty());
}

#[test]
fn std_dev_basic() {
    let values = vec![2, 4, 4, 4, 5, 5, 7, 9].into_iter().map(|v| v * 1_000_000).collect();
    let sd = vigil_echo::stats::std_dev(&values).unwrap();
    assert!((sd as f64 / 1e6 - 2.0).abs() < 0.01);
}

#[test]
fn std_dev_single_value() {
    assert_eq!(vigil_echo::stats::std_dev(&vec![5_000_000]), None);
}

#[test]
fn std_dev_exact_values() {
    assert_eq!(vigil_echo::stats::std_dev(&vec![7, 7, 7]), Some(0));
    // deviations from 2: 1, 1 -> variance 1 -> 1
    assert_eq!(vigil_echo::stats::std_dev(&vec![1, 3]), Some(1));
    // deviations from 1 (rounded-down mean): 0, 1 -> variance 0 -> 0
    assert_eq!(vigil_echo::stats::std_dev(&vec![1, 2]), Some(0));
}

#[test]
fn z_score_basic() {
    assert_eq!(z_score(12_000_000, 10_000_000, 2_000_000), 1_000_000);
    assert_eq!(z_score(8_000_000, 10_000_000, 2_000_000), -1_000_000);
    assert_eq!(z_score(0, 1, 3), -333_334);
}

fn vector_with(vd: Option<i64>) -> SignalVector {
    SignalVector {
        timestamp: "2026-01-01T00:00:00Z".into(),
        trigger: "test".into(),
        signals: Signals {
            vocabulary_diversity: vd,
            question_generation: None,
            thought_lifecycle: None,
            evidence_grounding: None,
        },
        document_hashes: Vec::new(),
    }
}

#[test]
fn anomaly_reported_for_outlier() {
    let mut history: Vec<SignalVector> =
        (0..9).map(|_| vector_with(Some(500_000))).collect();
    history.push(vector_with(Some(900_000)));
    let notes = vigil_echo::anomaly::detect_anomalies(&history);
    assert_eq!(
        notes,
        vec!["vocabulary diversity current reading (0.90) is 3.0 std devs above mean (95th percentile)".to_string()]
    );
}

#[test]
fn no_anomaly_for_short_or_flat_series() {
    let short: Vec<SignalVector> = (0..4).map(|i| vector_with(Some(i * 100_000))).collect();
    assert!(vigil_echo::anomaly::detect_anomalies(&short).is_empty());
    let flat: Vec<SignalVector> = (0..8).map(|_| vector_with(Some(300_000))).collect();
    assert!(vigil_echo::anomaly::detect_anomalies(&flat).is_empty());
}

#[test]
fn sparkline_width_one() {
    assert_eq!(sparkline(&vec![1, 5, 9], 1), "▄");
    assert_eq!(sparkline(&vec![1, 5, 9], 1).chars().count(), 1);
}

#[test]
fn sparkline_length_is_width() {
    let values = vec![3, 1, 4, 1, 5];
    for w in 1..12 {
        assert_eq!(sparkline(&values, w).chars().count(), w);
    }
}

#[test]
fn std_dev_of_negative_and_extreme_values() {
    // deviations from -2: 1, 1 -> 1
    assert_eq!(vigil_echo::stats::std_dev(&vec![-1, -3]), Some(1));
    // mean of the two extremes rounds down to -1; deviations 2^63 - 1 and 2^63
    let sd = vigil_echo::stats::std_dev(&vec![i64::MIN, i64::MAX]).unwrap();
    assert_eq!(sd, 9_223_372_036_854_775_807);
}
