use vigil_echo::signals::{
    evidence_grounding, has_date_pattern, has_evidence, question_generation, thought_lifecycle,
    vocabulary_diversity,
};

#[test]
fn vocabulary_diversity_from_reflections() {
    let content = "## Observations\n\n### First\nThe identity practice requires attention and genuine engagement with the material.\n\n### Second\nStructure enables depth when combined with honest reflection and real curiosity.\n";
    let score = vocabulary_diversity(content);
    assert!(score.is_some());
    let s = score.unwrap();
    assert!(s > 0 && s <= 1_000_000);
}

#[test]
fn vocabulary_diversity_empty() {
    assert!(vocabulary_diversity("").is_none());
}

#[test]
fn question_generation_counts() {
    let content = "## Open Questions\n\n### When I say I disagree, who is the I?\n\n### Can inherited values become genuinely mine?\n\n### Can I detect genuine vs mechanical reflection?\n\n## Explored\n\n### Old question\n";
    let count = question_generation(content);
    assert_eq!(count, Some(3_000_000));
}

#[test]
fn question_generation_empty() {
    assert!(question_generation("").is_none());
}

#[test]
fn thought_lifecycle_healthy() {
    let content = "## Active\n\n### Thought one\nContent\n\n### Thought two\nContent\n\n## Graduated\n\n### Done one\n\n### Done two\n\n### Done three\n\n## Dissolved\n\n### Gone one\n";
    let ratio = thought_lifecycle(content);
    assert!(ratio.is_some());
    // 4 resolved / 6 total = 0.667
    let r = ratio.unwrap();
    assert!((r as f64 / 1e6 - 4.0 / 6.0).abs() < 0.01);
}

#[test]
fn thought_lifecycle_all_stuck() {
    let content = "## Active\n\n### One\n\n### Two\n";
    let ratio = thought_lifecycle(content);
    // 0 resolved / 2 total = 0.0
    assert_eq!(ratio, Some(0));
}

#[test]
fn thought_lifecycle_empty() {
    assert!(thought_lifecycle("").is_none());
}

#[test]
fn evidence_grounding_scores() {
    let content = "## Observations\n\n### Grounded one\nD said something important on 2026-02-25 about identity.\n\n### Abstract one\nThinking is important and valuable in many ways.\n\n### Research one\nThe Reflexion paper showed that verbal self-evaluation helps.\n";
    let score = evidence_grounding(content);
    assert!(score.is_some());
    // 2 out of 3 entries grounded
    let s = score.unwrap();
    assert!((s as f64 / 1e6 - 2.0 / 3.0).abs() < 0.01);
}

#[test]
fn evidence_grounding_empty() {
    assert!(evidence_grounding("").is_none());
}

#[test]
fn date_pattern_detection() {
    assert!(has_date_pattern("something on 2026-02-27 happened"));
    assert!(!has_date_pattern("no dates here at all"));
    assert!(!has_date_pattern("20-02-27 not a date"));
}

#[test]
fn evidence_markers() {
    assert!(has_evidence("D said we should focus on this"));
    assert!(has_evidence("The paper on metacognition was clear"));
    assert!(has_evidence("During the session we discussed"));
    assert!(has_evidence("On 2026-02-25 something happened"));
    assert!(!has_evidence("Thinking is generally important"));
}

#[test]
fn evidence_grounding_half_of_two_entries() {
    let content = "## Observations\n\n### Grounded\nD said this on 2026-02-25.\n\n### Abstract\nThinking is important in many ways.\n";
    assert_eq!(evidence_grounding(content), Some(500_000));
}

#[test]
fn evidence_grounding_without_entries_is_absent() {
    assert!(evidence_grounding("## Observations\nJust prose.\n").is_none());
}

#[test]
fn date_pattern_edges() {
    assert!(has_date_pattern("2026-02-27"));
    assert!(!has_date_pattern("2026-02-2"));
    assert!(!has_date_pattern("2026/02/27"));
    assert!(!has_date_pattern(""));
}

#[test]
fn evidence_ignores_case_of_phrases() {
    assert!(has_evidence("ACCORDING TO the notes"));
    assert!(has_evidence("a call with the team"));
    assert!(!has_evidence("d thought about it"));
}

#[test]
fn question_generation_falls_back_to_open() {
    let content = "## Open threads\n### One\n### Two\n";
    assert_eq!(question_generation(content), Some(2_000_000));
    assert_eq!(question_generation("## Closed\n### One\n"), Some(0));
}

#[test]
fn thought_lifecycle_without_thoughts_is_absent() {
    assert!(thought_lifecycle("## Notes\n### One\n").is_none());
}

#[test]
fn vocabulary_diversity_exact_value() {
    let content = "## Lessons\n### L\nGo go go stop\n## Other\nnothing here\n";
    // tokens: go go go stop -> 2 distinct of 4
    assert_eq!(vocabulary_diversity(content), Some(500_000));
    assert!(vocabulary_diversity("## Other\nwords here\n").is_none());
}
