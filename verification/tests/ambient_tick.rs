use ai_proxy::schedule::{apply_outcome, tick_cutoff, tick_has_work};
use ai_proxy::store::{append_log_line, read_events, read_since};
use ai_proxy::summary::SummaryState;

const TS: i64 = 1_704_067_200_000;

#[test]
fn cutoff_is_the_interval_back_from_now() {
    assert_eq!(tick_cutoff(10_000_000, 30), 9_970_000);
    assert_eq!(tick_cutoff(TS, 0), TS);
}

#[test]
fn huge_intervals_saturate_instead_of_overflowing() {
    assert_eq!(tick_cutoff(0, u64::MAX), -i64::MAX);
    assert_eq!(tick_cutoff(i64::MIN + 5, 1), i64::MIN);
}

#[test]
fn tick_with_zero_new_events_does_nothing() {
    // An old event only: the tick's window since the cutoff is empty.
    let mut log: Vec<u8> = Vec::new();
    append_log_line(&mut log, &b"http://old".to_vec(), TS - 100_000);
    let events = read_events(&log);
    let cutoff = tick_cutoff(TS, 30);
    let new_items = read_since(&events, cutoff, 500);
    assert!(!tick_has_work(&new_items));

    // The scheduler therefore makes no summarization call and persists
    // nothing: the loadable state is exactly what it was.
    let before = SummaryState::load(&None);
    assert_eq!(before.text, Vec::<u8>::new());
    assert_eq!(before.updated_ms, 0);
}

#[test]
fn a_successful_outcome_becomes_the_new_state() {
    let updated = apply_outcome(Some(b"fresh summary".to_vec()), TS).expect("success persists");
    assert_eq!(updated.text, b"fresh summary".to_vec());
    assert_eq!(updated.updated_ms, TS);
}

#[test]
fn a_failed_outcome_persists_nothing() {
    assert!(apply_outcome(None, TS).is_none());
}
