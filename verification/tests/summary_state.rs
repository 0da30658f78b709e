use ai_proxy::summary::{save_attempt, SummaryState};

const TS: i64 = 1_704_067_200_000;

#[test]
fn save_then_load_is_idempotent() {
    let state = SummaryState {
        text: b"Key Patterns: searching;\nnew \"quoted\" notes\\here".to_vec(),
        updated_ms: TS,
    };
    let bytes = state.encode();
    let back = SummaryState::decode(&bytes).expect("own encoding should decode");
    assert_eq!(back.text, state.text);
    assert_eq!(back.updated_ms, state.updated_ms);
    let loaded = SummaryState::load(&Some(bytes));
    assert_eq!(loaded.text, state.text);
    assert_eq!(loaded.updated_ms, state.updated_ms);
}

#[test]
fn encoded_state_has_the_documented_shape() {
    let state = SummaryState {
        text: b"hello".to_vec(),
        updated_ms: TS,
    };
    assert_eq!(
        state.encode(),
        b"{\"text\":\"hello\",\"updated\":\"2024-01-01T00:00:00+00:00\"}".to_vec()
    );
}

#[test]
fn missing_file_loads_the_default_state() {
    let loaded = SummaryState::load(&None);
    assert_eq!(loaded.text, Vec::<u8>::new());
    assert_eq!(loaded.updated_ms, 0);
}

#[test]
fn corrupt_file_loads_the_default_state() {
    let loaded = SummaryState::load(&Some(b"{garbage".to_vec()));
    assert_eq!(loaded.text, Vec::<u8>::new());
    assert_eq!(loaded.updated_ms, 0);
    let torn = SummaryState::load(&Some(b"{\"text\":\"hal".to_vec()));
    assert_eq!(torn.text, Vec::<u8>::new());
}

#[test]
fn successful_save_replaces_the_loadable_state() {
    let first = SummaryState {
        text: b"first".to_vec(),
        updated_ms: TS,
    };
    let (canonical, ok) = save_attempt(None, &first, true, true);
    assert!(ok);
    let loaded = SummaryState::load(&canonical);
    assert_eq!(loaded.text, b"first".to_vec());
    assert_eq!(loaded.updated_ms, TS);
}

#[test]
fn failed_save_leaves_the_prior_state_observable() {
    let first = SummaryState {
        text: b"first".to_vec(),
        updated_ms: TS,
    };
    let (canonical, ok) = save_attempt(None, &first, true, true);
    assert!(ok);
    let second = SummaryState {
        text: b"second".to_vec(),
        updated_ms: TS + 1000,
    };
    let (after_write_failure, ok) = save_attempt(canonical.clone(), &second, false, false);
    assert!(!ok);
    assert_eq!(after_write_failure, canonical);
    let (after_rename_failure, ok) = save_attempt(canonical.clone(), &second, true, false);
    assert!(!ok);
    assert_eq!(after_rename_failure, canonical);
    let loaded = SummaryState::load(&after_rename_failure);
    assert_eq!(loaded.text, b"first".to_vec());
    assert_eq!(loaded.updated_ms, TS);
}
