//! When a pulse is due, and how a current value reads against the health
//! zones of its signal.
use vstd::prelude::*;

use crate::clock::{epoch_of, parse_iso_epoch};
use crate::state::{signal_for_key, Signal};

verus! {

/// Whether a pulse is due: always, unless the last pulse's timestamp reads
/// and fewer than `cooldown_seconds` have passed since (a clock behind the
/// last pulse counts as no time passed).
pub open spec fn pulse_due(last_pulse: Option<Seq<char>>, now: u64, cooldown_seconds: u64) -> bool {
    match last_pulse {
        Some(t) => match epoch_of(t) {
            Some(last) => (if now >= last {
                now - last
            } else {
                0
            }) >= cooldown_seconds,
            None => true,
        },
        None => true,
    }
}

/// Whether a pulse is due at `now`, given the time of the last one.
pub fn should_pulse(last_pulse: &Option<String>, now: u64, cooldown_seconds: u64) -> (r: bool)
    ensures
        r == pulse_due(
            match last_pulse {
                Some(t) => Some(t@),
                None => None,
            },
            now,
            cooldown_seconds,
        ),
{
    match last_pulse {
        Some(t) => match parse_iso_epoch(t.as_str()) {
            Some(last) => {
                let elapsed: u64 = if now >= last {
                    now - last
                } else {
                    0
                };
                elapsed >= cooldown_seconds
            },
            None => true,
        },
        None => true,
    }
}

/// How a current value reads against its signal's health zones.
#[derive(Clone, Copy, Debug, PartialEq, Eq, Structural)]
pub enum Zone {
    Healthy,
    Watch,
    Concern,
}

/// The bounds, in millionths, below which a value of the signal stored
/// under `name` is a concern and a watch.
pub open spec fn zone_bounds(name: Seq<char>) -> (i64, i64) {
    match signal_for_key(name) {
        Some(Signal::VocabularyDiversity) => (250_000i64, 400_000i64),
        Some(Signal::QuestionGeneration) => (2_000_000i64, 4_000_000i64),
        Some(Signal::ThoughtLifecycle) => (150_000i64, 300_000i64),
        Some(Signal::EvidenceGrounding) => (400_000i64, 600_000i64),
        None => (250_000i64, 500_000i64),
    }
}

/// The zone of `value` (millionths) for the signal stored under `name`.
pub fn signal_zone(name: &str, value: i64) -> (r: Zone)
    ensures
        r == (if value < zone_bounds(name@).0 {
            Zone::Concern
        } else if value < zone_bounds(name@).1 {
            Zone::Watch
        } else {
            Zone::Healthy
        }),
{
    let (red_below, yellow_below): (i64, i64) = match Signal::from_key(name) {
        Some(Signal::VocabularyDiversity) => (250_000, 400_000),
        Some(Signal::QuestionGeneration) => (2_000_000, 4_000_000),
        Some(Signal::ThoughtLifecycle) => (150_000, 300_000),
        Some(Signal::EvidenceGrounding) => (400_000, 600_000),
        None => (250_000, 500_000),
    };
    if value < red_below {
        Zone::Concern
    } else if value < yellow_below {
        Zone::Watch
    } else {
        Zone::Healthy
    }
}

} // verus!
