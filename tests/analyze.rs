use vigil_echo::analyze::{alert_level, decline_message, highlight_message, run, run_at};
use vigil_echo::state::{AlertLevel, Config, Signal, SignalTrend, SignalVector, Signals, Trend};

fn make_vector(vd: i64, qg: i64, tl: i64, eg: i64) -> SignalVector {
    SignalVector {
        timestamp: "2026-02-27T10:00:00Z".to_string(),
        trigger: "test".to_string(),
        signals: Signals {
            vocabulary_diversity: Some(vd),
            question_generation: Some(qg),
            thought_lifecycle: Some(tl),
            evidence_grounding: Some(eg),
        },
        document_hashes: Vec::new(),
    }
}

#[test]
fn healthy_with_stable_signals() {
    let history: Vec<SignalVector> =
        (0..5).map(|_| make_vector(700_000, 5_000_000, 500_000, 600_000)).collect();
    let config = Config::default();
    let analysis = run(&history, &config);
    assert_eq!(analysis.alert_level, AlertLevel::Healthy);
    assert_eq!(analysis.declining_count, 0);
}

#[test]
fn watch_with_one_declining() {
    let mut history: Vec<SignalVector> = Vec::new();
    // Baseline: high vocabulary diversity
    for _ in 0..7 {
        history.push(make_vector(800_000, 5_000_000, 500_000, 600_000));
    }
    // Recent: low vocabulary diversity
    for _ in 0..3 {
        history.push(make_vector(500_000, 5_000_000, 500_000, 600_000));
    }
    let config = Config::default();
    let analysis = run(&history, &config);
    assert_eq!(analysis.alert_level, AlertLevel::Watch);
    assert!(analysis.declining_count >= 1);
}

#[test]
fn too_few_datapoints() {
    let history = vec![make_vector(700_000, 5_000_000, 500_000, 600_000)];
    let config = Config::default();
    let analysis = run(&history, &config);
    // With only 1 point, everything stable
    assert_eq!(analysis.alert_level, AlertLevel::Healthy);
}

#[test]
fn declining_vocabulary_gives_watch_message() {
    let mut history: Vec<SignalVector> = Vec::new();
    for _ in 0..7 {
        history.push(make_vector(800_000, 5_000_000, 500_000, 600_000));
    }
    for _ in 0..3 {
        history.push(make_vector(500_000, 5_000_000, 500_000, 600_000));
    }
    let a = run_at(&history, &Config::default(), "t".to_string());
    assert_eq!(a.declining_count, 1);
    assert_eq!(a.stable_count, 3);
    assert_eq!(a.improving_count, 0);
    assert_eq!(a.data_points, 10);
    assert_eq!(a.timestamp, "t");
    assert_eq!(
        a.trend_of(Signal::VocabularyDiversity),
        Some(SignalTrend { current: Some(500_000), trend: Trend::Declining, delta: -300_000 })
    );
    assert_eq!(
        a.watch_messages,
        vec!["vocabulary_diversity at 0.50 (-0.30) — reflections reusing the same words".to_string()]
    );
    assert!(a.highlight.is_none());
}

#[test]
fn single_snapshot_is_stable_everywhere() {
    let history = vec![make_vector(700_000, 5_000_000, 500_000, 600_000)];
    let a = run(&history, &Config::default());
    assert_eq!(a.alert_level, AlertLevel::Healthy);
    assert_eq!(a.signals.len(), 4);
    for (_, t) in &a.signals {
        assert_eq!(t.trend, Trend::Stable);
        assert_eq!(t.delta, 0);
    }
    assert_eq!(a.stable_count, 4);
}

#[test]
fn absent_signal_has_no_entry() {
    let mut v = make_vector(700_000, 5_000_000, 500_000, 600_000);
    v.signals.thought_lifecycle = None;
    let history = vec![v.clone(), v.clone(), v];
    let a = run(&history, &Config::default());
    assert_eq!(a.signals.len(), 3);
    assert!(a.trend_of(Signal::ThoughtLifecycle).is_none());
}

#[test]
fn three_snapshots_have_empty_baseline() {
    let history = vec![
        make_vector(100_000, 1_000_000, 100_000, 100_000),
        make_vector(500_000, 5_000_000, 500_000, 500_000),
        make_vector(900_000, 9_000_000, 900_000, 900_000),
    ];
    let a = run(&history, &Config::default());
    assert_eq!(a.signals.len(), 4);
    for (_, t) in &a.signals {
        assert_eq!(t.trend, Trend::Stable);
        assert_eq!(t.delta, 0);
    }
}

#[test]
fn improving_signal_is_highlighted() {
    let mut history: Vec<SignalVector> = Vec::new();
    for _ in 0..4 {
        history.push(make_vector(500_000, 2_000_000, 500_000, 500_000));
    }
    for _ in 0..3 {
        history.push(make_vector(500_000, 5_000_000, 700_000, 500_000));
    }
    let a = run(&history, &Config::default());
    assert_eq!(a.improving_count, 2);
    assert_eq!(a.highlight, Some("question generation trending up (+3.00)".to_string()));
}

#[test]
fn sustained_decline_escalates_to_alert() {
    let mut history: Vec<SignalVector> = Vec::new();
    for _ in 0..4 {
        history.push(make_vector(900_000, 9_000_000, 900_000, 900_000));
    }
    for _ in 0..3 {
        history.push(make_vector(100_000, 1_000_000, 100_000, 100_000));
    }
    let a = run(&history, &Config::default());
    assert_eq!(a.declining_count, 4);
    assert_eq!(a.alert_level, AlertLevel::Alert);
    let mut config = Config::default();
    config.alert_after_sessions = 8;
    assert_eq!(run(&history, &config).alert_level, AlertLevel::Concern);
}

#[test]
fn alert_level_by_count() {
    let history = vec![make_vector(1, 1, 1, 1)];
    assert_eq!(alert_level(0, &history, 7), AlertLevel::Healthy);
    assert_eq!(alert_level(2, &history, 7), AlertLevel::Watch);
    assert_eq!(alert_level(3, &history, 7), AlertLevel::Concern);
    assert_eq!(alert_level(3, &history, 1), AlertLevel::Concern);
}

#[test]
fn messages_are_formatted() {
    assert_eq!(
        decline_message(Signal::QuestionGeneration, Some(2_000_000), -1_500_000),
        "question_generation at 2.00 (-2) — fewer new questions being asked"
    );
    assert_eq!(
        decline_message(Signal::EvidenceGrounding, None, -125_000),
        "evidence_grounding at ? (-0.13) — conclusions drifting from concrete inputs"
    );
    assert_eq!(highlight_message(Signal::ThoughtLifecycle, 204_999), "thought lifecycle trending up (+0.20)");
}

#[test]
fn sustained_decline_needs_four_present_values() {
    // three signals read [x, absent, 0, 0] over the last four snapshots
    let point = |v: Option<i64>, eg: i64| SignalVector {
        timestamp: "t".to_string(),
        trigger: "test".to_string(),
        signals: Signals {
            vocabulary_diversity: v,
            question_generation: v.map(|x| x * 10),
            thought_lifecycle: v,
            evidence_grounding: Some(eg),
        },
        document_hashes: Vec::new(),
    };
    let history = vec![
        point(Some(900_000), 500_000),
        point(None, 500_000),
        point(Some(0), 500_000),
        point(Some(0), 500_000),
    ];
    let mut config = Config::default();
    config.alert_after_sessions = 4;
    let a = run(&history, &config);
    assert_eq!(a.declining_count, 3);
    assert_eq!(a.alert_level, AlertLevel::Concern);
}
