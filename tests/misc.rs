use vigil_echo::clock::{iso_from_epoch, now_epoch_secs, now_iso, parse_iso_epoch};
use vigil_echo::collect::{append_bounded, extract_signals, snapshot};
use vigil_echo::paths::{config_file, protocol_file, reflections_file, signals_file, vigil_dir};
use vigil_echo::pulse::{should_pulse, signal_zone, Zone};
use vigil_echo::state::{friendly_name, Config, Signal, SignalVector, Signals};

#[test]
fn iso_round_trip() {
    assert_eq!(iso_from_epoch(0), "1970-01-01T00:00:00Z");
    assert_eq!(iso_from_epoch(1_772_186_400), "2026-02-27T10:00:00Z");
    assert_eq!(parse_iso_epoch("2026-02-27T10:00:00Z"), Some(1_772_186_400));
    assert_eq!(parse_iso_epoch("1970-01-01T00:00:00Z"), Some(0));
    assert_eq!(parse_iso_epoch("2000-02-29T23:59:59Z"), Some(951_868_799));
}

#[test]
fn parse_iso_rejects_bad_input() {
    assert_eq!(parse_iso_epoch("2026-02-27"), None);
    assert_eq!(parse_iso_epoch("20x6-02-27T10:00:00Z"), None);
    assert_eq!(parse_iso_epoch("1969-12-31T23:59:59Z"), None);
    assert_eq!(parse_iso_epoch("2026-é2-27T10:00:00Z"), None);
}

#[test]
fn clock_reads_current_time() {
    let now = now_iso();
    assert_eq!(now.len(), 20);
    assert!(now_epoch_secs() > 1_700_000_000);
    assert!(parse_iso_epoch(&now).unwrap() + 5 >= now_epoch_secs() - 5);
}

#[test]
fn paths_are_joined() {
    assert_eq!(vigil_dir("/home/u/host"), "/home/u/host/vigil");
    assert_eq!(signals_file("/h/host"), "/h/host/vigil/signals.json");
    assert_eq!(config_file("/h/host"), "/h/host/vigil/config.json");
    assert_eq!(protocol_file("/h/host"), "/h/host/rules/vigil-echo.md");
    assert_eq!(reflections_file("/docs"), "/docs/REFLECTIONS.md");
}

#[test]
fn friendly_names() {
    assert_eq!(friendly_name("thought_lifecycle"), "thought lifecycle");
    assert_eq!(friendly_name("other"), "other");
    assert_eq!(Signal::from_key("evidence_grounding"), Some(Signal::EvidenceGrounding));
    assert_eq!(Signal::from_key("evidence"), None);
}

#[test]
fn default_config() {
    let c = Config::default();
    assert_eq!(c.window_size, 10);
    assert_eq!(c.max_history, 50);
    assert_eq!(c.alert_after_sessions, 7);
    assert_eq!(c.thresholds.pair(Signal::QuestionGeneration).decline, -1_000_000);
    assert_eq!(c.thresholds.pair(Signal::VocabularyDiversity).improve, 50_000);
}

#[test]
fn history_is_bounded() {
    let v = |t: &str| SignalVector {
        timestamp: t.to_string(),
        trigger: "manual".to_string(),
        signals: Signals::empty(),
        document_hashes: Vec::new(),
    };
    let mut h = vec![v("a"), v("b"), v("c")];
    append_bounded(&mut h, v("d"), 3);
    let stamps: Vec<&str> = h.iter().map(|s| s.timestamp.as_str()).collect();
    assert_eq!(stamps, vec!["b", "c", "d"]);
    append_bounded(&mut h, v("e"), 10);
    assert_eq!(h.len(), 4);
}

#[test]
fn snapshot_of_documents() {
    let reflections = "## Observations\n### One\nD said so.\n### Two\nNothing much.\n";
    let s = snapshot(reflections, "", "## Open Questions\n### Q\n", "manual", "t".to_string());
    assert_eq!(s.signals.evidence_grounding, Some(500_000));
    assert_eq!(s.signals.thought_lifecycle, None);
    assert_eq!(s.signals.question_generation, Some(1_000_000));
    assert_eq!(s.document_hashes.len(), 3);
    assert_eq!(s.document_hashes[1], ("thoughts".to_string(), "0000000000001505".to_string()));
    let e = extract_signals("", "", "");
    assert!(e.vocabulary_diversity.is_none() && e.question_generation.is_none());
}

#[test]
fn pulse_cooldown() {
    let last = Some("2026-02-27T10:00:00Z".to_string());
    assert!(!should_pulse(&last, 1_772_186_400 + 59, 60));
    assert!(should_pulse(&last, 1_772_186_400 + 60, 60));
    assert!(!should_pulse(&last, 0, 60));
    assert!(should_pulse(&None, 0, 60));
    assert!(should_pulse(&Some("garbage".to_string()), 0, 60));
}

#[test]
fn zones() {
    assert_eq!(signal_zone("vocabulary_diversity", 200_000), Zone::Concern);
    assert_eq!(signal_zone("vocabulary_diversity", 300_000), Zone::Watch);
    assert_eq!(signal_zone("question_generation", 4_000_000), Zone::Healthy);
    assert_eq!(signal_zone("other", 499_999), Zone::Watch);
}
