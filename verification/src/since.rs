use vstd::prelude::*;
use crate::timefmt::{rfc3339_value_of, parse_rfc3339};

verus! {

/// Why a "since" expression was rejected.
#[derive(Clone, Copy, PartialEq, Eq, Structural, Debug)]
pub enum SinceError {
    /// The expression ended in `d`, `h` or `m` but its prefix is not an
    /// integer number of units, or the cutoff it asks for cannot be
    /// represented.
    InvalidDuration,
    /// The expression is not a relative duration and does not parse as an
    /// RFC 3339 timestamp.
    InvalidTimestamp,
}

/// An ASCII decimal digit.
pub open spec fn is_digit(b: u8) -> bool {
    48 <= b <= 57
}

/// The value of a string of decimal digits, most significant first.
pub open spec fn digits_value(s: Seq<u8>) -> int
    decreases s.len(),
{
    if s.len() == 0 {
        0
    } else {
        digits_value(s.drop_last()) * 10 + (s.last() - 48)
    }
}

/// `s` is one or more decimal digits.
pub open spec fn all_digits(s: Seq<u8>) -> bool {
    s.len() > 0 && forall|i: int| 0 <= i < s.len() ==> is_digit(s[i])
}

/// The integer a decimal token denotes: an optional `+` or `-` sign, then
/// one or more digits, nothing else.
pub open spec fn int_token_value(s: Seq<u8>) -> Option<int> {
    if s.len() >= 1 && (s[0] == 43 || s[0] == 45) {
        if all_digits(s.drop_first()) {
            if s[0] == 45 {
                Some(-digits_value(s.drop_first()))
            } else {
                Some(digits_value(s.drop_first()))
            }
        } else {
            None
        }
    } else {
        if all_digits(s) {
            Some(digits_value(s))
        } else {
            None
        }
    }
}

/// The integer a decimal token denotes, when it fits in an `i64`.
pub open spec fn parsed_i64(s: Seq<u8>) -> Option<int> {
    match int_token_value(s) {
        Some(v) => if i64::MIN <= v <= i64::MAX {
            Some(v)
        } else {
            None
        },
        None => None,
    }
}

/// Milliseconds per unit suffix: `d` days, `h` hours, `m` minutes.
pub open spec fn unit_millis(suffix: u8) -> int {
    if suffix == 100 {
        86400000
    } else if suffix == 104 {
        3600000
    } else {
        60000
    }
}

/// The cutoff instant a "since" expression denotes, relative to `now`:
/// an integer with a `d`/`h`/`m` suffix counts back that many days, hours
/// or minutes from `now` (rejected as `InvalidDuration` when the prefix is
/// not an `i64` or the offset or cutoff leaves the `i64` range); anything
/// else must be an RFC 3339 timestamp, rejected as `InvalidTimestamp`
/// otherwise.
pub open spec fn since_value(s: Seq<u8>, now: int) -> Result<int, SinceError> {
    if s.len() >= 1 && (s.last() == 100 || s.last() == 104 || s.last() == 109) {
        match parsed_i64(s.drop_last()) {
            Some(n) => {
                let offset = n * unit_millis(s.last());
                if i64::MIN <= offset <= i64::MAX && i64::MIN <= now - offset <= i64::MAX {
                    Ok(now - offset)
                } else {
                    Err(SinceError::InvalidDuration)
                }
            },
            None => Err(SinceError::InvalidDuration),
        }
    } else {
        match rfc3339_value_of(s) {
            Some(ms) => Ok(ms),
            None => Err(SinceError::InvalidTimestamp),
        }
    }
}

proof fn lemma_digits_value_nonneg(s: Seq<u8>)
    requires
        forall|i: int| 0 <= i < s.len() ==> is_digit(s[i]),
    ensures
        digits_value(s) >= 0,
    decreases s.len(),
{
    if s.len() > 0 {
        lemma_digits_value_nonneg(s.drop_last());
    }
}

proof fn lemma_digits_prefix_le(s: Seq<u8>, k: int)
    requires
        forall|i: int| 0 <= i < s.len() ==> is_digit(s[i]),
        0 <= k <= s.len(),
    ensures
        digits_value(s.take(k)) <= digits_value(s),
    decreases s.len() - k,
{
    if k == s.len() {
        assert(s.take(k) =~= s);
    } else {
        lemma_digits_prefix_le(s, k + 1);
        let t = s.take(k + 1);
        assert(t.drop_last() =~= s.take(k));
        lemma_digits_value_nonneg(s.take(k));
        assert(digits_value(t) == digits_value(s.take(k)) * 10 + (t.last() - 48));
        assert(digits_value(s.take(k)) * 10 >= digits_value(s.take(k)));
    }
}

proof fn lemma_token_overflow(s: Seq<u8>, start: int, k: int, neg: bool)
    requires
        0 <= start <= 1,
        start < s.len(),
        start == 1 ==> (s[0] == 43 || s[0] == 45),
        start == 0 ==> !(s[0] == 43 || s[0] == 45),
        neg <==> s[0] == 45,
        0 < k <= s.len() - start,
        neg ==> -digits_value(s.skip(start).take(k)) < i64::MIN,
        !neg ==> digits_value(s.skip(start).take(k)) > i64::MAX,
    ensures
        parsed_i64(s) is None,
{
    let digits = s.skip(start);
    lemma_out_of_range(digits, k, neg);
    if start == 1 {
        assert(digits =~= s.drop_first());
    } else {
        assert(digits =~= s);
    }
}

/// Reads a decimal integer token (optional sign, then digits) as an `i64`;
/// `None` when the token is malformed or its value does not fit.
pub fn parse_i64_token(s: &[u8]) -> (r: Option<i64>)
    ensures
        match r {
            Some(v) => parsed_i64(s@) == Some(v as int),
            None => parsed_i64(s@) is None,
        },
{
    if s.len() == 0 {
        return None;
    }
    let neg = s[0] == 45;
    let start: usize = if s[0] == 45 || s[0] == 43 {
        1
    } else {
        0
    };
    let ghost digits = s@.skip(start as int);
    if start == s.len() {
        return None;
    }
    let mut i = start;
    let mut v: i64 = 0;
    proof {
        assert(digits.take(0) =~= Seq::<u8>::empty());
    }
    while i < s.len()
        invariant
            start <= i <= s@.len(),
            start < s@.len(),
            start == 0 || start == 1,
            start == 1 ==> (s@[0] == 43 || s@[0] == 45),
            start == 0 ==> !(s@[0] == 43 || s@[0] == 45),
            neg <==> s@[0] == 45,
            digits == s@.skip(start as int),
            forall|j: int| start <= j < i ==> is_digit(s@[j]),
            neg ==> v == -digits_value(digits.take(i - start)),
            !neg ==> v == digits_value(digits.take(i - start)),
        decreases s@.len() - i,
    {
        let b = s[i];
        if b < 48 || b > 57 {
            proof {
                assert(digits[i - start] == s@[i as int]);
                assert(!all_digits(digits));
                if start == 1 {
                    assert(digits =~= s@.drop_first());
                } else {
                    assert(digits =~= s@);
                }
            }
            return None;
        }
        let d = (b - 48) as i64;
        let ghost k = i + 1 - start;
        let ghost prev = digits.take(k - 1);
        proof {
            let t = digits.take(k);
            assert(t.drop_last() =~= prev);
            assert(t.last() == s@[i as int]);
            assert(forall|j: int| 0 <= j < prev.len() ==> prev[j] == s@[start + j]);
            lemma_digits_value_nonneg(prev);
            assert(digits_value(t) == digits_value(prev) * 10 + (s@[i as int] - 48));
        }
        if neg {
            v = match v.checked_mul(10) {
                Some(w) => w,
                None => {
                    proof {
                        assert(-digits_value(digits.take(k)) <= v * 10);
                        lemma_token_overflow(s@, start as int, k, true);
                    }
                    return None;
                },
            };
            v = match v.checked_sub(d) {
                Some(w) => w,
                None => {
                    proof {
                        assert(-digits_value(digits.take(k)) == v - d);
                        lemma_token_overflow(s@, start as int, k, true);
                    }
                    return None;
                },
            };
        } else {
            v = match v.checked_mul(10) {
                Some(w) => w,
                None => {
                    proof {
                        assert(digits_value(digits.take(k)) >= v * 10);
                        lemma_token_overflow(s@, start as int, k, false);
                    }
                    return None;
                },
            };
            v = match v.checked_add(d) {
                Some(w) => w,
                None => {
                    proof {
                        assert(digits_value(digits.take(k)) == v + d);
                        lemma_token_overflow(s@, start as int, k, false);
                    }
                    return None;
                },
            };
        }
        i += 1;
    }
    proof {
        assert(digits.take(i - start) =~= digits);
        assert(all_digits(digits));
        if start == 1 {
            assert(digits =~= s@.drop_first());
        } else {
            assert(digits =~= s@);
        }
    }
    Some(v)
}

proof fn lemma_out_of_range(digits: Seq<u8>, k: int, neg: bool)
    requires
        0 < k <= digits.len(),
        neg ==> -digits_value(digits.take(k)) < i64::MIN,
        !neg ==> digits_value(digits.take(k)) > i64::MAX,
    ensures
        all_digits(digits) ==> parsed_i64_magnitude_exceeded(digits, neg),
{
    if all_digits(digits) {
        lemma_digits_prefix_le(digits, k);
    }
}

/// The value the digit string denotes leaves the `i64` range on the given
/// side.
spec fn parsed_i64_magnitude_exceeded(digits: Seq<u8>, neg: bool) -> bool {
    if neg {
        -digits_value(digits) < i64::MIN
    } else {
        digits_value(digits) > i64::MAX
    }
}

/// Reads a "since" expression against the current instant `now_ms`: a
/// relative duration such as `7d`, `3h` or `45m`, or an absolute RFC 3339
/// timestamp, per `since_value`.
pub fn parse_since(input: &[u8], now_ms: i64) -> (r: Result<i64, SinceError>)
    ensures
        match r {
            Ok(ms) => since_value(input@, now_ms as int) == Ok::<int, SinceError>(ms as int),
            Err(e) => since_value(input@, now_ms as int) == Err::<int, SinceError>(e),
        },
{
    if input.len() >= 1 {
        let last = input[input.len() - 1];
        if last == 100 || last == 104 || last == 109 {
            let digits = &input[0..input.len() - 1];
            proof {
                assert(digits@ =~= input@.drop_last());
            }
            let unit: i64 = if last == 100 {
                86400000
            } else if last == 104 {
                3600000
            } else {
                60000
            };
            return match parse_i64_token(digits) {
                Some(n) => match n.checked_mul(unit) {
                    Some(offset) => match now_ms.checked_sub(offset) {
                        Some(cutoff) => Ok(cutoff),
                        None => Err(SinceError::InvalidDuration),
                    },
                    None => Err(SinceError::InvalidDuration),
                },
                None => Err(SinceError::InvalidDuration),
            };
        }
    }
    match parse_rfc3339(input) {
        Some(ms) => Ok(ms),
        None => Err(SinceError::InvalidTimestamp),
    }
}

} // verus!
