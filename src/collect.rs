//! Turning the documents into a snapshot, and keeping the history bounded.
use vstd::prelude::*;

use crate::parser::{djb2, hash_content, hex16, pairs_view};
use crate::signals::{
    evidence_grounding, evidence_grounding_of, question_generation, question_generation_of,
    thought_lifecycle, thought_lifecycle_of, vocabulary_diversity, vocabulary_diversity_of,
};
use crate::state::{Signals, SignalVector};
use crate::value::opt_int;
use vstd::string::StringSliceAdditionalSpecFns;

verus! {

/// The four signals of the documents: diversity and grounding from the
/// reflections, lifecycle from the thoughts, questions from the curiosity
/// document.
pub fn extract_signals(reflections: &str, thoughts: &str, curiosity: &str) -> (r: Signals)
    ensures
        opt_int(r.vocabulary_diversity) == vocabulary_diversity_of(reflections@),
        opt_int(r.question_generation) == question_generation_of(curiosity@),
        opt_int(r.thought_lifecycle) == thought_lifecycle_of(thoughts@),
        opt_int(r.evidence_grounding) == evidence_grounding_of(reflections@),
{
    Signals {
        vocabulary_diversity: vocabulary_diversity(reflections),
        question_generation: question_generation(curiosity),
        thought_lifecycle: thought_lifecycle(thoughts),
        evidence_grounding: evidence_grounding(reflections),
    }
}

/// A snapshot of the documents taken at `timestamp` for `trigger`: their
/// signals and the digest of each.
pub fn snapshot(reflections: &str, thoughts: &str, curiosity: &str, trigger: &str, timestamp: String) -> (r:
    SignalVector)
    ensures
        r.timestamp@ == timestamp@,
        r.trigger@ == trigger@,
        opt_int(r.signals.vocabulary_diversity) == vocabulary_diversity_of(reflections@),
        opt_int(r.signals.question_generation) == question_generation_of(curiosity@),
        opt_int(r.signals.thought_lifecycle) == thought_lifecycle_of(thoughts@),
        opt_int(r.signals.evidence_grounding) == evidence_grounding_of(reflections@),
        pairs_view(r.document_hashes@) == seq![
            ("reflections"@, hex16(djb2(reflections.spec_bytes()))),
            ("thoughts"@, hex16(djb2(thoughts.spec_bytes()))),
            ("curiosity"@, hex16(djb2(curiosity.spec_bytes()))),
        ],
{
    let signals = extract_signals(reflections, thoughts, curiosity);
    let mut hashes: Vec<(String, String)> = Vec::new();
    hashes.push((String::from_str("reflections"), hash_content(reflections)));
    hashes.push((String::from_str("thoughts"), hash_content(thoughts)));
    hashes.push((String::from_str("curiosity"), hash_content(curiosity)));
    assert(pairs_view(hashes@) =~= seq![
        ("reflections"@, hex16(djb2(reflections.spec_bytes()))),
        ("thoughts"@, hex16(djb2(thoughts.spec_bytes()))),
        ("curiosity"@, hex16(djb2(curiosity.spec_bytes()))),
    ]);
    SignalVector { timestamp, trigger: String::from_str(trigger), signals, document_hashes: hashes }
}

/// `h` with its oldest entries dropped so that at most `max` remain.
pub open spec fn keep_last<T>(h: Seq<T>, max: nat) -> Seq<T> {
    if h.len() > max {
        h.subrange(h.len() - max, h.len() as int)
    } else {
        h
    }
}

/// Append `v` to the history, then drop the oldest entries beyond
/// `max_history`.
pub fn append_bounded(history: &mut Vec<SignalVector>, v: SignalVector, max_history: usize)
    ensures
        final(history)@ == keep_last(old(history)@.push(v), max_history as nat),
{
    history.push(v);
    if history.len() > max_history {
        let excess = history.len() - max_history;
        let kept = history.split_off(excess);
        *history = kept;
    }
}

} // verus!
