use vstd::prelude::*;
use crate::codec::{escaped, scan_string, escape_into, scan_string_from, lemma_scan_escaped};
use crate::timefmt::{
    ts_in_range, rfc3339_of, rfc3339_value_of, format_rfc3339, parse_rfc3339, ts_ok,
};
use crate::util::{has_prefix, slice_has_prefix};

verus! {

/// The rolling summary: the accumulated analysis text and the instant it
/// was last updated.
pub struct SummaryState {
    pub text: Vec<u8>,
    pub updated_ms: i64,
}

/// The mathematical shape of the summary state.
pub struct SummaryModel {
    pub text: Seq<u8>,
    pub updated: int,
}

impl View for SummaryState {
    type V = SummaryModel;

    open spec fn view(&self) -> SummaryModel {
        SummaryModel { text: self.text@, updated: self.updated_ms as int }
    }
}

/// A state whose update instant can be persisted.
pub open spec fn state_valid(m: SummaryModel) -> bool {
    ts_in_range(m.updated)
}

/// The state used when nothing was ever persisted: empty text, epoch
/// instant.
pub open spec fn default_model() -> SummaryModel {
    SummaryModel { text: Seq::empty(), updated: 0 }
}

impl Default for SummaryState {
    /// The default state: empty text, epoch instant.
    fn default() -> (st: SummaryState)
        ensures
            st@ == default_model(),
    {
        let st = SummaryState { text: Vec::new(), updated_ms: 0 };
        proof {
            assert(st@.text =~= default_model().text);
        }
        st
    }
}

/// The bytes of `{"text":"`.
pub open spec fn text_key() -> Seq<u8> {
    seq![123u8, 34u8, 116u8, 101u8, 120u8, 116u8, 34u8, 58u8, 34u8]
}

/// The bytes of `","updated":"`.
pub open spec fn updated_key() -> Seq<u8> {
    seq![44u8, 34u8, 117u8, 112u8, 100u8, 97u8, 116u8, 101u8, 100u8, 34u8, 58u8, 34u8]
}

/// The persisted form of the state: one object with the text and the
/// RFC 3339 update instant, each escaped inside a quoted JSON field.
pub open spec fn encoded_state(m: SummaryModel) -> Seq<u8> {
    text_key() + escaped(m.text) + seq![34u8] + updated_key() + escaped(rfc3339_of(m.updated))
        + seq![34u8, 125u8]
}

/// The state a persisted file records: both quoted fields read back, the
/// closing brace in place, and the update instant a valid RFC 3339 text in
/// the persistable range. Anything else is corrupt.
pub open spec fn decoded_state(bytes: Seq<u8>) -> Option<SummaryModel> {
    if !has_prefix(bytes, text_key()) {
        None
    } else {
        match scan_string(bytes.skip(9)) {
            Some(p1) => {
                let rest = bytes.skip(9 + p1.1);
                if !has_prefix(rest, updated_key()) {
                    None
                } else {
                    match scan_string(rest.skip(12)) {
                        Some(p2) => {
                            let tail = rest.skip(12 + p2.1);
                            if tail.len() == 1 && tail[0] == 125 {
                                match rfc3339_value_of(p2.0) {
                                    Some(ms) => if ts_in_range(ms) {
                                        Some(SummaryModel { text: p1.0, updated: ms })
                                    } else {
                                        None
                                    },
                                    None => None,
                                }
                            } else {
                                None
                            }
                        },
                        None => None,
                    }
                }
            },
            None => None,
        }
    }
}

/// What `load` observes for a given canonical file content: the decoded
/// state, or the default one where the file is missing or corrupt.
pub open spec fn loaded_of(content: Option<Seq<u8>>) -> SummaryModel {
    match content {
        None => default_model(),
        Some(b) => match decoded_state(b) {
            Some(m) => m,
            None => default_model(),
        },
    }
}

/// The view of an optional byte buffer.
pub open spec fn content_view(c: Option<Vec<u8>>) -> Option<Seq<u8>> {
    match c {
        Some(v) => Some(v@),
        None => None,
    }
}

fn text_key_vec() -> (v: Vec<u8>)
    ensures
        v@ == text_key(),
{
    let mut v: Vec<u8> = Vec::new();
    v.push(123);
    v.push(34);
    v.push(116);
    v.push(101);
    v.push(120);
    v.push(116);
    v.push(34);
    v.push(58);
    v.push(34);
    proof {
        assert(v@ =~= text_key());
    }
    v
}

fn updated_key_vec() -> (v: Vec<u8>)
    ensures
        v@ == updated_key(),
{
    let mut v: Vec<u8> = Vec::new();
    v.push(44);
    v.push(34);
    v.push(117);
    v.push(112);
    v.push(100);
    v.push(97);
    v.push(116);
    v.push(101);
    v.push(100);
    v.push(34);
    v.push(58);
    v.push(34);
    proof {
        assert(v@ =~= updated_key());
    }
    v
}

proof fn lemma_decode_encoded_state(m: SummaryModel, ts_text: Seq<u8>)
    requires
        ts_text == rfc3339_of(m.updated),
        rfc3339_value_of(ts_text) == Some(m.updated),
        ts_in_range(m.updated),
    ensures
        decoded_state(encoded_state(m)) == Some(m),
{
    let bytes = encoded_state(m);
    let rest1 = updated_key() + escaped(ts_text) + seq![34u8] + seq![125u8];
    assert(has_prefix(bytes, text_key())) by {
        assert(bytes.subrange(0, 9) =~= text_key());
    }
    assert(bytes.skip(9) =~= escaped(m.text) + seq![34u8] + rest1);
    lemma_scan_escaped(m.text, rest1);
    let c1 = escaped(m.text).len() + 1 as int;
    assert(scan_string(bytes.skip(9)) == Some((m.text, c1)));
    let rest = bytes.skip(9 + c1);
    assert(rest =~= rest1);
    assert(has_prefix(rest, updated_key())) by {
        assert(rest1.subrange(0, 12) =~= updated_key());
    }
    assert(rest.skip(12) =~= escaped(ts_text) + seq![34u8] + seq![125u8]);
    lemma_scan_escaped(ts_text, seq![125u8]);
    let c2 = escaped(ts_text).len() + 1 as int;
    assert(scan_string(rest.skip(12)) == Some((ts_text, c2)));
    let tail = rest.skip(12 + c2);
    assert(tail =~= seq![125u8]);
}

impl SummaryState {
    /// Law, the save/load round trip: serialises the state, and proves the
    /// bytes load back as exactly this state — `load(save(S)) == S`.
    pub fn encode(&self) -> (r: Vec<u8>)
        requires
            state_valid(self@),
        ensures
            r@ == encoded_state(self@),
            decoded_state(r@) == Some(self@),
            loaded_of(Some(r@)) == self@,
    {
        let mut out = text_key_vec();
        escape_into(&mut out, self.text.as_slice());
        out.push(34);
        let key2 = updated_key_vec();
        out.extend_from_slice(key2.as_slice());
        let ts_text = format_rfc3339(self.updated_ms);
        escape_into(&mut out, ts_text.as_slice());
        out.push(34);
        out.push(125);
        proof {
            assert(out@ =~= encoded_state(self@));
            lemma_decode_encoded_state(self@, ts_text@);
        }
        out
    }

    /// Reads a persisted file back, or `None` where it is corrupt.
    pub fn decode(bytes: &[u8]) -> (r: Option<SummaryState>)
        ensures
            match r {
                Some(st) => decoded_state(bytes@) == Some(st@) && state_valid(st@),
                None => decoded_state(bytes@) is None,
            },
    {
        let key = text_key_vec();
        if !slice_has_prefix(bytes, key.as_slice()) {
            return None;
        }
        let (text, n1) = match scan_string_from(bytes, 9) {
            Some(p) => p,
            None => {
                return None;
            },
        };
        let rest = &bytes[n1..bytes.len()];
        proof {
            assert(rest@ =~= bytes@.skip(n1 as int));
        }
        let key2 = updated_key_vec();
        if !slice_has_prefix(rest, key2.as_slice()) {
            return None;
        }
        let (ts_text, n2) = match scan_string_from(rest, 12) {
            Some(p) => p,
            None => {
                return None;
            },
        };
        let tail = &rest[n2..rest.len()];
        proof {
            assert(tail@ =~= rest@.skip(n2 as int));
        }
        if !(tail.len() == 1 && tail[0] == 125) {
            return None;
        }
        let ms = match parse_rfc3339(ts_text.as_slice()) {
            Some(ms) => ms,
            None => {
                return None;
            },
        };
        if !ts_ok(ms) {
            return None;
        }
        Some(SummaryState { text, updated_ms: ms })
    }

    /// `load`: the persisted state, or the default one where the file is
    /// missing or corrupt — summarisation always has a well-defined
    /// starting point.
    pub fn load(content: &Option<Vec<u8>>) -> (st: SummaryState)
        ensures
            st@ == loaded_of(
                match content {
                    Some(b) => Some(b@),
                    None => None,
                },
            ),
            state_valid(st@),
    {
        match content {
            None => SummaryState::default(),
            Some(bytes) => match SummaryState::decode(bytes.as_slice()) {
                Some(st) => st,
                None => SummaryState::default(),
            },
        }
    }
}

/// The canonical file's content after one attempted save: only a write that
/// reaches the atomic rename replaces it; any earlier failure leaves the old
/// content in place, never a torn mixture.
pub open spec fn canonical_after_save(
    prev: Option<Seq<u8>>,
    encoded: Seq<u8>,
    write_ok: bool,
    rename_ok: bool,
) -> Option<Seq<u8>> {
    if write_ok && rename_ok {
        Some(encoded)
    } else {
        prev
    }
}

/// Law: a failed save — whether the temporary write or the rename failed —
/// leaves the previously loadable state exactly as it was.
pub proof fn lemma_failed_save_preserves_state(
    prev: Option<Seq<u8>>,
    encoded: Seq<u8>,
    write_ok: bool,
    rename_ok: bool,
)
    requires
        !(write_ok && rename_ok),
    ensures
        canonical_after_save(prev, encoded, write_ok, rename_ok) == prev,
        loaded_of(canonical_after_save(prev, encoded, write_ok, rename_ok)) == loaded_of(prev),
{
}

/// One attempted `save` against the canonical file's content, the two
/// fallible steps of the write-to-temp-then-rename protocol given as their
/// outcomes: returns the canonical content afterwards and whether the save
/// succeeded. A failure surfaces to the caller and never corrupts the
/// previously committed state.
pub fn save_attempt(
    canonical: Option<Vec<u8>>,
    state: &SummaryState,
    write_ok: bool,
    rename_ok: bool,
) -> (r: (Option<Vec<u8>>, bool))
    requires
        state_valid(state@),
    ensures
        r.1 == (write_ok && rename_ok),
        content_view(r.0) == canonical_after_save(
            content_view(canonical),
            encoded_state(state@),
            write_ok,
            rename_ok,
        ),
        r.1 ==> loaded_of(content_view(r.0)) == state@,
        !r.1 ==> loaded_of(content_view(r.0)) == loaded_of(content_view(canonical)),
{
    if write_ok && rename_ok {
        let bytes = state.encode();
        (Some(bytes), true)
    } else {
        (canonical, false)
    }
}

} // verus!
