use ai_proxy::paths::{log_path, summary_path};

#[test]
fn log_path_joins_the_data_directory() {
    assert_eq!(
        log_path(&b"/home/user/.local/share/ai-proxy".to_vec()),
        b"/home/user/.local/share/ai-proxy/log.ndjson".to_vec()
    );
}

#[test]
fn summary_path_joins_the_data_directory() {
    assert_eq!(
        summary_path(&b"/data".to_vec()),
        b"/data/rolling_summary.json".to_vec()
    );
}
