use ai_proxy::since::{parse_since, SinceError};

const NOW: i64 = 1_000_000_000_000;

#[test]
fn seven_days_counts_back_exactly() {
    assert_eq!(parse_since(b"7d", NOW), Ok(NOW - 7 * 86_400_000));
}

#[test]
fn three_hours_counts_back_exactly() {
    assert_eq!(parse_since(b"3h", NOW), Ok(NOW - 3 * 3_600_000));
}

#[test]
fn forty_five_minutes_counts_back_exactly() {
    assert_eq!(parse_since(b"45m", NOW), Ok(NOW - 45 * 60_000));
}

#[test]
fn rfc3339_utc_parses_to_its_instant() {
    assert_eq!(
        parse_since(b"2024-01-01T00:00:00Z", NOW),
        Ok(1_704_067_200_000)
    );
}

#[test]
fn rfc3339_with_offset_normalizes_to_utc() {
    assert_eq!(
        parse_since(b"2024-01-01T05:30:00+05:30", NOW),
        Ok(1_704_067_200_000)
    );
}

#[test]
fn rfc3339_round_trips_through_chrono() {
    let text = chrono::DateTime::from_timestamp_millis(1_700_000_123_456)
        .unwrap()
        .to_rfc3339();
    assert_eq!(
        parse_since(text.as_bytes(), NOW),
        Ok(1_700_000_123_456)
    );
}

#[test]
fn plain_word_fails_as_timestamp() {
    assert_eq!(parse_since(b"abc", NOW), Err(SinceError::InvalidTimestamp));
}

#[test]
fn unknown_suffix_fails_as_timestamp() {
    assert_eq!(parse_since(b"7x", NOW), Err(SinceError::InvalidTimestamp));
}

#[test]
fn non_numeric_prefix_fails_as_duration() {
    assert_eq!(parse_since(b"xd", NOW), Err(SinceError::InvalidDuration));
    assert_eq!(parse_since(b"d", NOW), Err(SinceError::InvalidDuration));
    assert_eq!(parse_since(b"1.5h", NOW), Err(SinceError::InvalidDuration));
}

#[test]
fn overflowing_duration_fails_as_duration() {
    assert_eq!(
        parse_since(b"99999999999999999999d", NOW),
        Err(SinceError::InvalidDuration)
    );
    assert_eq!(
        parse_since(b"9223372036854775807d", NOW),
        Err(SinceError::InvalidDuration)
    );
}

#[test]
fn explicit_plus_sign_is_accepted() {
    assert_eq!(parse_since(b"+7d", NOW), Ok(NOW - 7 * 86_400_000));
}

#[test]
fn leading_zeros_are_accepted() {
    assert_eq!(parse_since(b"007d", NOW), Ok(NOW - 7 * 86_400_000));
}

#[test]
fn negative_durations_look_forward() {
    assert_eq!(parse_since(b"-2h", NOW), Ok(NOW + 2 * 3_600_000));
}
