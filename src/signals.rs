//! The four signals derived from the documents, each in millionths.
use vstd::prelude::*;

use crate::parser::{
    count_h3_under_section, entries_of, entry_count, extract_entries, extract_section_text,
    pairs_view, section_text, type_token_ratio, type_token_ratio_of,
};
use crate::text::{chars_of, contains, contains_chars, lower_of, lowercase};
use crate::value::{opt_int, ratio, ratio_of, whole, whole_of};

verus! {

pub open spec fn ascii_digit(c: char) -> bool {
    '0' <= c && c <= '9'
}

/// A date `YYYY-MM-DD` starts at position `i` of `t`.
pub open spec fn date_at(t: Seq<char>, i: int) -> bool {
    &&& 0 <= i && i + 10 <= t.len()
    &&& ascii_digit(t[i]) && ascii_digit(t[i + 1]) && ascii_digit(t[i + 2]) && ascii_digit(t[i + 3])
    &&& t[i + 4] == '-'
    &&& ascii_digit(t[i + 5]) && ascii_digit(t[i + 6])
    &&& t[i + 7] == '-'
    &&& ascii_digit(t[i + 8]) && ascii_digit(t[i + 9])
}

/// `t` holds a date `YYYY-MM-DD` somewhere.
pub open spec fn has_date(t: Seq<char>) -> bool {
    exists|i: int| date_at(t, i)
}

/// Phrases that attribute a statement to a person.
pub open spec fn attribution_phrases() -> Seq<&'static str> {
    seq!["d said", "d asked", "d mentioned", "d told", "d pointed", "d called", "d suggested"]
}

/// Phrases that point at a source or a piece of research.
pub open spec fn research_phrases() -> Seq<&'static str> {
    seq![
        "paper",
        "research",
        "found that",
        "according to",
        "study",
        "framework",
        "mazancieux",
        "reflexion",
        "lindsey",
        "foucault",
        "aristotle",
    ]
}

/// Phrases that point at a concrete event.
pub open spec fn event_phrases() -> Seq<&'static str> {
    seq![
        "session",
        "conversation",
        "call with",
        "during the",
        "yesterday",
        "this morning",
        "last night",
    ]
}

/// One of `phrases` occurs in `lower`.
pub open spec fn mentions_any(lower: Seq<char>, phrases: Seq<&'static str>) -> bool {
    exists|k: int| 0 <= k < phrases.len() && contains(lower, phrases[k]@)
}

/// `t` holds a concrete reference: a date, or (case-insensitively) an
/// attribution, a source or an event phrase.
pub open spec fn evidence_in(t: Seq<char>) -> bool {
    ||| has_date(t)
    ||| mentions_any(lower_of(t), attribution_phrases())
    ||| mentions_any(lower_of(t), research_phrases())
    ||| mentions_any(lower_of(t), event_phrases())
}

fn digit(c: char) -> (r: bool)
    ensures
        r == ascii_digit(c),
{
    '0' <= c && c <= '9'
}

/// Whether `text` holds a date of the form `YYYY-MM-DD`.
pub fn has_date_pattern(text: &str) -> (r: bool)
    ensures
        r == has_date(text@),
{
    let t = chars_of(text);
    let mut i: usize = 0;
    while i < t.len()
        invariant
            i <= t.len(),
            t@ == text@,
            forall|j: int| 0 <= j < i ==> !date_at(t@, j),
        decreases t.len() - i,
    {
        if digit(t[i]) && t.len() - i > 9 {
            if digit(t[i + 1]) && digit(t[i + 2]) && digit(t[i + 3]) && t[i + 4] == '-' && digit(
                t[i + 5],
            ) && digit(t[i + 6]) && t[i + 7] == '-' && digit(t[i + 8]) && digit(t[i + 9]) {
                assert(date_at(t@, i as int));
                return true;
            }
        }
        i += 1;
    }
    false
}

fn mentions(lower: &Vec<char>, phrases: &Vec<&'static str>) -> (r: bool)
    ensures
        r == mentions_any(lower@, phrases@),
{
    let mut k: usize = 0;
    while k < phrases.len()
        invariant
            k <= phrases.len(),
            forall|m: int| 0 <= m < k ==> !contains(lower@, #[trigger] phrases@[m]@),
        decreases phrases.len() - k,
    {
        let p = chars_of(phrases[k]);
        if contains_chars(lower, &p) {
            return true;
        }
        k += 1;
    }
    false
}

/// Whether `text` holds a concrete reference: a `YYYY-MM-DD` date, or,
/// ignoring case, an attribution, a source or an event phrase.
pub fn has_evidence(text: &str) -> (r: bool)
    ensures
        r == evidence_in(text@),
{
    let t = chars_of(text);
    let lower = lowercase(&t);
    if has_date_pattern(text) {
        return true;
    }
    let attribution: Vec<&'static str> = vec![
        "d said",
        "d asked",
        "d mentioned",
        "d told",
        "d pointed",
        "d called",
        "d suggested",
    ];
    assert(attribution@ == attribution_phrases());
    if mentions(&lower, &attribution) {
        return true;
    }
    let research: Vec<&'static str> = vec![
        "paper",
        "research",
        "found that",
        "according to",
        "study",
        "framework",
        "mazancieux",
        "reflexion",
        "lindsey",
        "foucault",
        "aristotle",
    ];
    assert(research@ == research_phrases());
    if mentions(&lower, &research) {
        return true;
    }
    let events: Vec<&'static str> = vec![
        "session",
        "conversation",
        "call with",
        "during the",
        "yesterday",
        "this morning",
        "last night",
    ];
    assert(events@ == event_phrases());
    mentions(&lower, &events)
}

// ----------------------------------------------------------- extractors --

/// The sections of the reflections document that hold its prose.
pub open spec fn reflection_sections() -> Seq<&'static str> {
    seq!["observations", "patterns", "lessons"]
}

fn reflection_section_names() -> (r: Vec<&'static str>)
    ensures
        r@ == reflection_sections(),
{
    let r: Vec<&'static str> = vec!["observations", "patterns", "lessons"];
    assert(r@ == reflection_sections());
    r
}

/// Lexical diversity of the reflections' prose; absent for an empty document.
pub open spec fn vocabulary_diversity_of(c: Seq<char>) -> Option<int> {
    if c.len() == 0 {
        None
    } else {
        type_token_ratio_of(section_text(c, reflection_sections()))
    }
}

/// Number of open questions: entries under "Open Questions", or under any
/// "Open" section when there are none; absent for an empty document.
pub open spec fn question_generation_of(c: Seq<char>) -> Option<int> {
    if c.len() == 0 {
        None
    } else {
        let open = entry_count(c, "Open Questions"@);
        let n = if open > 0 {
            open
        } else {
            entry_count(c, "Open"@)
        };
        Some(whole_of(n as int))
    }
}

/// Share of tracked thoughts that graduated or dissolved; absent for an
/// empty document or when no thought is tracked.
pub open spec fn thought_lifecycle_of(c: Seq<char>) -> Option<int> {
    let active = entry_count(c, "Active"@);
    let graduated = entry_count(c, "Graduated"@);
    let dissolved = entry_count(c, "Dissolved"@);
    let total = active + graduated + dissolved;
    if c.len() == 0 || total == 0 {
        None
    } else {
        Some(ratio_of((graduated + dissolved) as int, total as int))
    }
}

/// How many of `entries` have a body with a concrete reference.
pub open spec fn grounded_count(entries: Seq<(Seq<char>, Seq<char>)>) -> nat
    decreases entries.len(),
{
    if entries.len() == 0 {
        0
    } else {
        grounded_count(entries.drop_last()) + if evidence_in(entries.last().1) {
            1nat
        } else {
            0nat
        }
    }
}

/// Share of reflection entries with a concrete reference; absent for an
/// empty document or one without entries.
pub open spec fn evidence_grounding_of(c: Seq<char>) -> Option<int> {
    let entries = entries_of(c, reflection_sections());
    if c.len() == 0 || entries.len() == 0 {
        None
    } else {
        Some(ratio_of(grounded_count(entries) as int, entries.len() as int))
    }
}

/// Lexical diversity (type-token ratio) of the prose under the
/// Observations, Patterns and Lessons sections, in millionths.
pub fn vocabulary_diversity(reflections_content: &str) -> (r: Option<i64>)
    ensures
        opt_int(r) == vocabulary_diversity_of(reflections_content@),
{
    if reflections_content.is_empty() {
        return None;
    }
    let names = reflection_section_names();
    let text = extract_section_text(reflections_content, names.as_slice());
    type_token_ratio(text.as_str())
}

/// Number of open questions, in millionths (a count of 3 is `3_000_000`).
pub fn question_generation(curiosity_content: &str) -> (r: Option<i64>)
    ensures
        opt_int(r) == question_generation_of(curiosity_content@),
{
    if curiosity_content.is_empty() {
        return None;
    }
    let open = count_h3_under_section(curiosity_content, "Open Questions");
    let count = if open > 0 {
        open
    } else {
        count_h3_under_section(curiosity_content, "Open")
    };
    Some(whole(count))
}

/// Resolved thoughts (graduated and dissolved) over all tracked thoughts,
/// in millionths.
pub fn thought_lifecycle(thoughts_content: &str) -> (r: Option<i64>)
    ensures
        opt_int(r) == thought_lifecycle_of(thoughts_content@),
{
    if thoughts_content.is_empty() {
        return None;
    }
    let active = count_h3_under_section(thoughts_content, "Active");
    let graduated = count_h3_under_section(thoughts_content, "Graduated");
    let dissolved = count_h3_under_section(thoughts_content, "Dissolved");
    let total: u128 = active as u128 + graduated as u128 + dissolved as u128;
    if total == 0 {
        return None;
    }
    Some(ratio(graduated as u128 + dissolved as u128, total))
}

/// Reflection entries with a concrete reference over all reflection
/// entries, in millionths.
pub fn evidence_grounding(reflections_content: &str) -> (r: Option<i64>)
    ensures
        opt_int(r) == evidence_grounding_of(reflections_content@),
{
    if reflections_content.is_empty() {
        return None;
    }
    let names = reflection_section_names();
    let entries = extract_entries(reflections_content, names.as_slice());
    if entries.len() == 0 {
        return None;
    }
    let mut grounded: usize = 0;
    let mut i: usize = 0;
    while i < entries.len()
        invariant
            i <= entries.len(),
            grounded <= i,
            grounded == grounded_count(pairs_view(entries@).subrange(0, i as int)),
        decreases entries.len() - i,
    {
        let ghost es = pairs_view(entries@);
        assert(es.subrange(0, i + 1).drop_last() == es.subrange(0, i as int));
        assert(es.subrange(0, i + 1).last().1 == entries@[i as int].1@);
        if has_evidence(entries[i].1.as_str()) {
            grounded += 1;
        }
        i += 1;
    }
    assert(pairs_view(entries@).subrange(0, entries.len() as int) == pairs_view(entries@));
    Some(ratio(grounded as u128, entries.len() as u128))
}

} // verus!
