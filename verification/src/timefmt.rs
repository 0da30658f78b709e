use vstd::prelude::*;

verus! {

/// Milliseconds since the Unix epoch of `0000-01-01T00:00:00Z`, the earliest
/// instant that the RFC 3339 formatter renders with a four-digit year.
pub const TS_MIN_MS: i64 = -62167219200000;

/// Milliseconds since the Unix epoch of `9999-12-31T23:59:59.999Z`, the
/// latest instant that the RFC 3339 formatter renders with a four-digit year.
pub const TS_MAX_MS: i64 = 253402300799999;

/// Instants that the store and the summary state persist: those with a
/// four-digit year, so that their RFC 3339 text parses back to the same
/// instant.
pub open spec fn ts_in_range(ms: int) -> bool {
    TS_MIN_MS <= ms <= TS_MAX_MS
}

/// Exec counterpart of `ts_in_range`.
pub fn ts_ok(ms: i64) -> (r: bool)
    ensures
        r == ts_in_range(ms as int),
{
    TS_MIN_MS <= ms && ms <= TS_MAX_MS
}

/// The RFC 3339 text that chrono prints for the UTC instant `ms` milliseconds
/// after the Unix epoch.
pub uninterp spec fn rfc3339_of(ms: int) -> Seq<u8>;

/// The UTC instant, in milliseconds since the Unix epoch, that chrono's
/// RFC 3339 parser reads from `s`; `None` where `s` is not a valid RFC 3339
/// date-and-time.
pub uninterp spec fn rfc3339_value_of(s: Seq<u8>) -> Option<int>;

/// Relies on chrono's `DateTime::<Utc>::from_timestamp_millis` and
/// `DateTime::to_rfc3339`: for an instant with a four-digit year the
/// conversion succeeds and prints `YYYY-MM-DDTHH:MM:SS[.sss]+00:00`, text
/// that depends on the instant alone and that chrono's own
/// `DateTime::parse_from_rfc3339` reads back as the same instant.
#[verifier::external_body]
pub(crate) fn format_rfc3339(ms: i64) -> (r: Vec<u8>)
    requires
        ts_in_range(ms as int),
    ensures
        r@ == rfc3339_of(ms as int),
        rfc3339_value_of(r@) == Some(ms as int),
{
    match chrono::DateTime::<chrono::Utc>::from_timestamp_millis(ms) {
        Some(dt) => dt.to_rfc3339().into_bytes(),
        None => Vec::new(),
    }
}

/// Relies on chrono's `DateTime::parse_from_rfc3339`: whether the bytes are a
/// valid RFC 3339 date-and-time, and the UTC instant they denote, depend on
/// the bytes alone.
#[verifier::external_body]
pub(crate) fn parse_rfc3339(s: &[u8]) -> (r: Option<i64>)
    ensures
        match r {
            Some(ms) => rfc3339_value_of(s@) == Some(ms as int),
            None => rfc3339_value_of(s@) is None,
        },
{
    let text = match core::str::from_utf8(s) { Ok(t) => t, Err(_) => return None };
    match chrono::DateTime::parse_from_rfc3339(text) {
        Ok(dt) => Some(dt.with_timezone(&chrono::Utc).timestamp_millis()),
        Err(_) => None,
    }
}

/// Forces an arbitrary clock reading into the persistable range, leaving
/// in-range instants untouched.
pub fn clamp_timestamp(ms: i64) -> (r: i64)
    ensures
        ts_in_range(r as int),
        ts_in_range(ms as int) ==> r == ms,
        r == if ms < TS_MIN_MS {
            TS_MIN_MS
        } else if ms > TS_MAX_MS {
            TS_MAX_MS
        } else {
            ms
        },
{
    if ms < TS_MIN_MS {
        TS_MIN_MS
    } else if ms > TS_MAX_MS {
        TS_MAX_MS
    } else {
        ms
    }
}

} // verus!
