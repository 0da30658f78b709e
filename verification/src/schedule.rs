use vstd::prelude::*;
use crate::summary::{SummaryState, state_valid};
use crate::timefmt::{ts_in_range, clamp_timestamp, TS_MIN_MS, TS_MAX_MS};

verus! {

/// The cutoff of one ambient tick: the configured interval back from now,
/// saturating at the representable bounds.
pub open spec fn tick_cutoff_spec(now: int, interval_secs: int) -> int {
    let step: int = if interval_secs * 1000 > i64::MAX {
        i64::MAX as int
    } else {
        interval_secs * 1000
    };
    if now - step < i64::MIN {
        i64::MIN as int
    } else {
        now - step
    }
}

/// Computes one ambient tick's cutoff, `interval` seconds back from `now`.
pub fn tick_cutoff(now_ms: i64, interval_secs: u64) -> (c: i64)
    ensures
        c == tick_cutoff_spec(now_ms as int, interval_secs as int),
{
    let step: i64 = if interval_secs > 9223372036854775 {
        i64::MAX
    } else {
        (interval_secs as i64) * 1000
    };
    match now_ms.checked_sub(step) {
        Some(c) => c,
        None => i64::MIN,
    }
}

/// Whether an ambient tick summarizes at all: only when the window pulled
/// any new events — an empty window skips the cycle entirely, with no
/// summarization call.
pub fn tick_has_work(new_items: &Vec<Vec<u8>>) -> (b: bool)
    ensures
        b == (new_items@.len() > 0),
{
    new_items.len() > 0
}

/// Folds one summarization outcome into the summary state, as both the
/// ambient tick and the one-shot analysis do: a successful text replaces
/// the summary and stamps the clock reading (forced into the persistable
/// range); a failure yields nothing to persist, leaving the prior state
/// untouched.
pub fn apply_outcome(outcome: Option<Vec<u8>>, now_ms: i64) -> (r: Option<SummaryState>)
    ensures
        match outcome {
            Some(text) => r matches Some(ns) && ns@.text == text@ && state_valid(ns@) && ns@.updated
                == if now_ms < TS_MIN_MS {
                TS_MIN_MS as int
            } else if now_ms > TS_MAX_MS {
                TS_MAX_MS as int
            } else {
                now_ms as int
            },
            None => r is None,
        },
{
    match outcome {
        Some(text) => {
            let ts = clamp_timestamp(now_ms);
            Some(SummaryState { text, updated_ms: ts })
        },
        None => None,
    }
}

} // verus!
