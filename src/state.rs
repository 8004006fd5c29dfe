//! The records the analyzer reads and writes: snapshots of the four
//! signals, per-signal trends, alert levels, the analysis and its
//! configuration. Every signal value is in millionths (see `value`).
use vstd::prelude::*;

use crate::text::chars_of;
use crate::value::SCALE;

verus! {

/// One of the four tracked signals.
#[derive(Clone, Copy, Debug, PartialEq, Eq, Structural)]
pub enum Signal {
    VocabularyDiversity,
    QuestionGeneration,
    ThoughtLifecycle,
    EvidenceGrounding,
}

/// The four signals in their fixed order.
pub open spec fn all_signals() -> Seq<Signal> {
    seq![
        Signal::VocabularyDiversity,
        Signal::QuestionGeneration,
        Signal::ThoughtLifecycle,
        Signal::EvidenceGrounding,
    ]
}

/// The key under which a signal is stored.
pub open spec fn signal_key(s: Signal) -> Seq<char> {
    match s {
        Signal::VocabularyDiversity => "vocabulary_diversity"@,
        Signal::QuestionGeneration => "question_generation"@,
        Signal::ThoughtLifecycle => "thought_lifecycle"@,
        Signal::EvidenceGrounding => "evidence_grounding"@,
    }
}

/// The name of a signal in prose.
pub open spec fn signal_friendly(s: Signal) -> Seq<char> {
    match s {
        Signal::VocabularyDiversity => "vocabulary diversity"@,
        Signal::QuestionGeneration => "question generation"@,
        Signal::ThoughtLifecycle => "thought lifecycle"@,
        Signal::EvidenceGrounding => "evidence grounding"@,
    }
}

/// The four signals in their fixed order.
pub fn signal_list() -> (r: Vec<Signal>)
    ensures
        r@ == all_signals(),
{
    let r = vec![
        Signal::VocabularyDiversity,
        Signal::QuestionGeneration,
        Signal::ThoughtLifecycle,
        Signal::EvidenceGrounding,
    ];
    assert(r@ == all_signals());
    r
}

impl Signal {
    /// The key under which the signal is stored, e.g. `vocabulary_diversity`.
    pub fn key(&self) -> (r: &'static str)
        ensures
            r@ == signal_key(*self),
    {
        match self {
            Signal::VocabularyDiversity => "vocabulary_diversity",
            Signal::QuestionGeneration => "question_generation",
            Signal::ThoughtLifecycle => "thought_lifecycle",
            Signal::EvidenceGrounding => "evidence_grounding",
        }
    }

    /// The name of the signal in prose, e.g. `vocabulary diversity`.
    pub fn friendly(&self) -> (r: &'static str)
        ensures
            r@ == signal_friendly(*self),
    {
        match self {
            Signal::VocabularyDiversity => "vocabulary diversity",
            Signal::QuestionGeneration => "question generation",
            Signal::ThoughtLifecycle => "thought lifecycle",
            Signal::EvidenceGrounding => "evidence grounding",
        }
    }

    /// The signal stored under `key`, if any.
    pub fn from_key(key: &str) -> (r: Option<Signal>)
        ensures
            r == signal_for_key(key@),
    {
        let k = chars_of(key);
        let sigs = signal_list();
        let mut i: usize = 0;
        while i < sigs.len()
            invariant
                i <= sigs.len(),
                sigs@ == all_signals(),
                k@ == key@,
                forall|j: int| 0 <= j < i ==> signal_key(#[trigger] sigs@[j]) != key@,
            decreases sigs.len() - i,
        {
            let s = sigs[i];
            let name = chars_of(s.key());
            if same_chars(&name, &k) {
                proof {
                    let c = choose|c: Signal| signal_key(c) == key@;
                    lemma_keys_distinct(c, s);
                }
                return Some(s);
            }
            i += 1;
        }
        proof {
            assert forall|s: Signal| signal_key(s) != key@ by {
                match s {
                    Signal::VocabularyDiversity => assert(sigs@[0] == s),
                    Signal::QuestionGeneration => assert(sigs@[1] == s),
                    Signal::ThoughtLifecycle => assert(sigs@[2] == s),
                    Signal::EvidenceGrounding => assert(sigs@[3] == s),
                }
            }
        }
        None
    }
}

/// Whether two character sequences are equal.
pub fn same_chars(a: &Vec<char>, b: &Vec<char>) -> (r: bool)
    ensures
        r == (a@ == b@),
{
    if a.len() != b.len() {
        return false;
    }
    let mut i: usize = 0;
    while i < a.len()
        invariant
            a.len() == b.len(),
            i <= a.len(),
            forall|j: int| 0 <= j < i ==> a@[j] == b@[j],
        decreases a.len() - i,
    {
        if a[i] != b[i] {
            return false;
        }
        i += 1;
    }
    assert(a@ =~= b@);
    true
}

/// The signal stored under key `name`, if any.
pub open spec fn signal_for_key(name: Seq<char>) -> Option<Signal> {
    if exists|s: Signal| signal_key(s) == name {
        Some(choose|s: Signal| signal_key(s) == name)
    } else {
        None
    }
}

/// Each signal is found again under its own key.
pub proof fn lemma_key_round_trip(s: Signal)
    ensures
        signal_for_key(signal_key(s)) == Some(s),
{
    let c = choose|c: Signal| signal_key(c) == signal_key(s);
    lemma_keys_distinct(c, s);
}

/// The prose name for a signal key; any other name is returned as it is.
pub open spec fn friendly_of(name: Seq<char>) -> Seq<char> {
    match signal_for_key(name) {
        Some(s) => signal_friendly(s),
        None => name,
    }
}

proof fn lemma_keys_distinct(a: Signal, b: Signal)
    requires
        signal_key(a) == signal_key(b),
    ensures
        a == b,
{
    reveal_strlit("vocabulary_diversity");
    reveal_strlit("question_generation");
    reveal_strlit("thought_lifecycle");
    reveal_strlit("evidence_grounding");
    assert(signal_key(Signal::VocabularyDiversity).len() == 20);
    assert(signal_key(Signal::QuestionGeneration).len() == 19);
    assert(signal_key(Signal::ThoughtLifecycle).len() == 17);
    assert(signal_key(Signal::EvidenceGrounding).len() == 18);
}

/// The prose name for a signal key, e.g. `thought lifecycle` for
/// `thought_lifecycle`; any other name is returned as it is.
pub fn friendly_name(name: &str) -> (r: &str)
    ensures
        r@ == friendly_of(name@),
{
    match Signal::from_key(name) {
        Some(s) => s.friendly(),
        None => name,
    }
}

/// The four signal values of one snapshot; `None` where the source
/// document was missing or held nothing to measure.
#[derive(Clone, Copy, Debug)]
pub struct Signals {
    pub vocabulary_diversity: Option<i64>,
    pub question_generation: Option<i64>,
    pub thought_lifecycle: Option<i64>,
    pub evidence_grounding: Option<i64>,
}

impl Signals {
    /// The value of signal `s`.
    pub open spec fn get(self, s: Signal) -> Option<i64> {
        match s {
            Signal::VocabularyDiversity => self.vocabulary_diversity,
            Signal::QuestionGeneration => self.question_generation,
            Signal::ThoughtLifecycle => self.thought_lifecycle,
            Signal::EvidenceGrounding => self.evidence_grounding,
        }
    }

    /// Every present value is non-negative, as all four signals are.
    pub open spec fn wf(self) -> bool {
        forall|s: Signal| ((#[trigger] self.get(s)) matches Some(v) ==> v >= 0)
    }

    /// The value of signal `s`.
    pub fn value(&self, s: Signal) -> (r: Option<i64>)
        ensures
            r == self.get(s),
    {
        match s {
            Signal::VocabularyDiversity => self.vocabulary_diversity,
            Signal::QuestionGeneration => self.question_generation,
            Signal::ThoughtLifecycle => self.thought_lifecycle,
            Signal::EvidenceGrounding => self.evidence_grounding,
        }
    }

    /// No value present.
    pub fn empty() -> (r: Signals)
        ensures
            forall|s: Signal| r.get(s) is None,
    {
        Signals {
            vocabulary_diversity: None,
            question_generation: None,
            thought_lifecycle: None,
            evidence_grounding: None,
        }
    }
}

/// One snapshot of the signals, taken once per collection event.
#[derive(Clone, Debug)]
pub struct SignalVector {
    pub timestamp: String,
    pub trigger: String,
    pub signals: Signals,
    /// Digest of each document's content at capture time, as
    /// `(document name, digest)` pairs with distinct names.
    pub document_hashes: Vec<(String, String)>,
}

/// Direction of a signal over the analysis window.
#[derive(Clone, Copy, Debug, PartialEq, Eq, Structural)]
pub enum Trend {
    Improving,
    Stable,
    Declining,
}

/// A signal's trend in one analysis run.
#[derive(Clone, Copy, Debug, PartialEq, Eq, Structural)]
pub struct SignalTrend {
    /// The most recent value in the window.
    pub current: Option<i64>,
    pub trend: Trend,
    /// Mean of the recent values minus mean of the baseline, in millionths.
    pub delta: i64,
}

/// Aggregate health classification, in increasing severity.
#[derive(Clone, Copy, Debug, PartialEq, Eq, Structural)]
pub enum AlertLevel {
    Healthy,
    Watch,
    Concern,
    Alert,
}

/// The result of one analysis run.
#[derive(Clone, Debug)]
pub struct Analysis {
    pub timestamp: String,
    pub alert_level: AlertLevel,
    /// One trend per signal that had data, in signal order.
    pub signals: Vec<(Signal, SignalTrend)>,
    pub improving_count: usize,
    pub stable_count: usize,
    pub declining_count: usize,
    pub highlight: Option<String>,
    pub watch_messages: Vec<String>,
    pub data_points: usize,
}

impl Analysis {
    /// The trend of signal `s`, if it had data.
    pub fn trend_of(&self, s: Signal) -> (r: Option<SignalTrend>)
        ensures
            r matches Some(t) ==> exists|k: int|
                0 <= k < self.signals@.len() && self.signals@[k] == (s, t),
            r is None ==> forall|k: int|
                0 <= k < self.signals@.len() ==> (#[trigger] self.signals@[k]).0 != s,
    {
        let mut i: usize = 0;
        while i < self.signals.len()
            invariant
                i <= self.signals@.len(),
                forall|k: int| 0 <= k < i ==> (#[trigger] self.signals@[k]).0 != s,
            decreases self.signals.len() - i,
        {
            if self.signals[i].0 == s {
                assert(self.signals@[i as int] == (s, self.signals[i as int].1));
                return Some(self.signals[i].1);
            }
            i += 1;
        }
        None
    }
}

/// Delta boundaries of one signal, in millionths: a delta below `decline`
/// is a decline, one above `improve` an improvement.
#[derive(Clone, Copy, Debug, PartialEq, Eq, Structural)]
pub struct ThresholdPair {
    pub decline: i64,
    pub improve: i64,
}

/// Thresholds for each of the four signals.
#[derive(Clone, Copy, Debug, PartialEq, Eq, Structural)]
pub struct Thresholds {
    pub vocabulary_diversity: ThresholdPair,
    pub question_generation: ThresholdPair,
    pub thought_lifecycle: ThresholdPair,
    pub evidence_grounding: ThresholdPair,
}

impl Thresholds {
    pub open spec fn get(self, s: Signal) -> ThresholdPair {
        match s {
            Signal::VocabularyDiversity => self.vocabulary_diversity,
            Signal::QuestionGeneration => self.question_generation,
            Signal::ThoughtLifecycle => self.thought_lifecycle,
            Signal::EvidenceGrounding => self.evidence_grounding,
        }
    }

    /// The thresholds of signal `s`.
    pub fn pair(&self, s: Signal) -> (r: ThresholdPair)
        ensures
            r == self.get(s),
    {
        match s {
            Signal::VocabularyDiversity => self.vocabulary_diversity,
            Signal::QuestionGeneration => self.question_generation,
            Signal::ThoughtLifecycle => self.thought_lifecycle,
            Signal::EvidenceGrounding => self.evidence_grounding,
        }
    }

    /// Replace the thresholds of signal `s`.
    pub fn set(&mut self, s: Signal, p: ThresholdPair)
        ensures
            final(self).get(s) == p,
            forall|o: Signal| o != s ==> final(self).get(o) == old(self).get(o),
    {
        match s {
            Signal::VocabularyDiversity => self.vocabulary_diversity = p,
            Signal::QuestionGeneration => self.question_generation = p,
            Signal::ThoughtLifecycle => self.thought_lifecycle = p,
            Signal::EvidenceGrounding => self.evidence_grounding = p,
        }
    }
}

/// The documented default thresholds of each signal, in millionths.
pub open spec fn default_pair(s: Signal) -> ThresholdPair {
    match s {
        Signal::VocabularyDiversity => ThresholdPair { decline: -50_000i64, improve: 50_000i64 },
        Signal::QuestionGeneration => ThresholdPair { decline: -1_000_000i64, improve: 1_000_000i64 },
        Signal::ThoughtLifecycle => ThresholdPair { decline: -100_000i64, improve: 100_000i64 },
        Signal::EvidenceGrounding => ThresholdPair { decline: -100_000i64, improve: 100_000i64 },
    }
}

impl Default for Thresholds {
    fn default() -> (r: Thresholds)
        ensures
            forall|s: Signal| r.get(s) == default_pair(s),
    {
        Thresholds {
            vocabulary_diversity: ThresholdPair { decline: -50_000, improve: 50_000 },
            question_generation: ThresholdPair { decline: -SCALE, improve: SCALE },
            thought_lifecycle: ThresholdPair { decline: -100_000, improve: 100_000 },
            evidence_grounding: ThresholdPair { decline: -100_000, improve: 100_000 },
        }
    }
}

/// Analyzer configuration.
#[derive(Clone, Copy, Debug)]
pub struct Config {
    pub thresholds: Thresholds,
    /// How many of the most recent snapshots feed trend detection.
    pub window_size: usize,
    /// How many snapshots the history keeps.
    pub max_history: usize,
    /// Length of the trailing window checked for a sustained decline.
    pub alert_after_sessions: usize,
    /// Minimum seconds between two pulses.
    pub cooldown_seconds: u64,
}

impl Default for Config {
    fn default() -> (r: Config)
        ensures
            forall|s: Signal| r.thresholds.get(s) == default_pair(s),
            r.window_size == 10,
            r.max_history == 50,
            r.alert_after_sessions == 7,
            r.cooldown_seconds == 60,
    {
        Config {
            thresholds: Thresholds::default(),
            window_size: 10,
            max_history: 50,
            alert_after_sessions: 7,
            cooldown_seconds: 60,
        }
    }
}

/// When the last pulse ran, for its cooldown.
#[derive(Clone, Debug)]
pub struct PulseState {
    pub last_pulse: Option<String>,
}

impl Default for PulseState {
    fn default() -> (r: PulseState)
        ensures
            r.last_pulse is None,
    {
        PulseState { last_pulse: None }
    }
}

} // verus!
