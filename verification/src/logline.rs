use vstd::prelude::*;
use crate::util::{is_space, byte_is_space, has_prefix, bytes_eq, slice_has_prefix};

verus! {

/// The longest whitespace-free prefix of `s`.
pub open spec fn token_prefix(s: Seq<u8>) -> Seq<u8>
    decreases s.len(),
{
    if s.len() == 0 || is_space(s[0]) {
        Seq::empty()
    } else {
        seq![s[0]] + token_prefix(s.drop_first())
    }
}

/// The whitespace-separated fields of `s`, in order, each one a maximal
/// whitespace-free run.
pub open spec fn fields_of(s: Seq<u8>) -> Seq<Seq<u8>>
    decreases s.len(),
    via fields_of_decreases
{
    if s.len() == 0 {
        Seq::empty()
    } else if is_space(s[0]) {
        fields_of(s.drop_first())
    } else {
        seq![token_prefix(s)] + fields_of(s.skip(token_prefix(s).len() as int))
    }
}

#[via_fn]
proof fn fields_of_decreases(s: Seq<u8>) {
    if s.len() > 0 && !is_space(s[0]) {
        lemma_token_prefix_len(s);
        assert(token_prefix(s).len() >= 1);
    }
}

proof fn lemma_token_prefix_len(s: Seq<u8>)
    ensures
        token_prefix(s).len() <= s.len(),
    decreases s.len(),
{
    if s.len() == 0 || is_space(s[0]) {
    } else {
        lemma_token_prefix_len(s.drop_first());
    }
}

/// The bytes of `"http://"`.
pub open spec fn http_prefix() -> Seq<u8> {
    seq![104u8, 116u8, 116u8, 112u8, 58u8, 47u8, 47u8]
}

/// The bytes of `"https://"`.
pub open spec fn https_prefix() -> Seq<u8> {
    seq![104u8, 116u8, 116u8, 112u8, 115u8, 58u8, 47u8, 47u8]
}

/// The bytes of `"CONNECT"`.
pub open spec fn connect_method() -> Seq<u8> {
    seq![67u8, 79u8, 78u8, 78u8, 69u8, 67u8, 84u8]
}

/// The URL that one access-log line records, per the fixed field layout of
/// the external proxy's log format: at least 8 whitespace-separated fields;
/// field 7 (index 6) is the request target and is the URL verbatim when it
/// carries an `http://` or `https://` scheme; otherwise field 8 (index 7),
/// the Host header, is prefixed with `https://` for `CONNECT` requests
/// (field 6, index 5, is the method) and with `http://` for anything else.
pub open spec fn parsed_url(s: Seq<u8>) -> Option<Seq<u8>> {
    let f = fields_of(s);
    if f.len() < 8 {
        None
    } else if has_prefix(f[6], http_prefix()) || has_prefix(f[6], https_prefix()) {
        Some(f[6])
    } else if f[5] == connect_method() {
        Some(https_prefix() + f[7])
    } else {
        Some(http_prefix() + f[7])
    }
}

proof fn lemma_token_prefix_exact(s: Seq<u8>, k: int)
    requires
        0 <= k <= s.len(),
        forall|j: int| 0 <= j < k ==> !is_space(s[j]),
        k == s.len() || is_space(s[k]),
    ensures
        token_prefix(s) == s.subrange(0, k),
    decreases k,
{
    if k == 0 {
        assert(token_prefix(s) =~= s.subrange(0, 0));
    } else {
        assert(!is_space(s[0]));
        lemma_token_prefix_exact(s.drop_first(), k - 1);
        assert(s.drop_first().subrange(0, k - 1) =~= s.subrange(1, k));
        assert(seq![s[0]] + s.subrange(1, k) =~= s.subrange(0, k));
    }
}

/// Splits `s` into its whitespace-separated fields.
pub fn split_fields(s: &[u8]) -> (toks: Vec<Vec<u8>>)
    ensures
        toks@.len() == fields_of(s@).len(),
        forall|j: int| 0 <= j < toks@.len() ==> toks@[j]@ == fields_of(s@)[j],
{
    let mut toks: Vec<Vec<u8>> = Vec::new();
    let ghost mut done: Seq<Seq<u8>> = Seq::empty();
    let mut i: usize = 0;
    proof {
        assert(s@.skip(0) =~= s@);
        assert(done + fields_of(s@) =~= fields_of(s@));
    }
    while i < s.len()
        invariant
            i <= s@.len(),
            fields_of(s@) == done + fields_of(s@.skip(i as int)),
            done.len() == toks@.len(),
            forall|j: int| 0 <= j < done.len() ==> toks@[j]@ == done[j],
        decreases s@.len() - i,
    {
        if byte_is_space(s[i]) {
            proof {
                assert(s@.skip(i as int).drop_first() =~= s@.skip(i as int + 1));
            }
            i += 1;
        } else {
            let ghost start = i as int;
            let ghost rest = s@.skip(start);
            let mut tok: Vec<u8> = Vec::new();
            proof {
                assert(tok@ =~= s@.subrange(start, start));
            }
            while i < s.len() && !byte_is_space(s[i])
                invariant
                    0 <= start <= i <= s@.len(),
                    i < s@.len() ==> start < s@.len(),
                    tok@ == s@.subrange(start, i as int),
                    forall|j: int| start <= j < i ==> !is_space(s@[j]),
                decreases s@.len() - i,
            {
                tok.push(s[i]);
                proof {
                    assert(tok@ =~= s@.subrange(start, i as int + 1));
                }
                i += 1;
            }
            proof {
                let k = i - start;
                assert(forall|j: int| 0 <= j < k ==> rest[j] == s@[start + j] && !is_space(
                    rest[j],
                ));
                assert(k == rest.len() || is_space(rest[k]));
                lemma_token_prefix_exact(rest, k);
                assert(rest.subrange(0, k) =~= s@.subrange(start, i as int));
                assert(token_prefix(rest) == tok@);
                assert(!is_space(rest[0]));
                assert(fields_of(rest) == seq![token_prefix(rest)] + fields_of(
                    rest.skip(token_prefix(rest).len() as int),
                ));
                assert(rest.skip(k) =~= s@.skip(i as int));
                assert(fields_of(s@) == done + (seq![tok@] + fields_of(s@.skip(i as int))));
                assert((done + seq![tok@]) + fields_of(s@.skip(i as int)) =~= done + (seq![tok@]
                    + fields_of(s@.skip(i as int))));
                assert(done.push(tok@) =~= done + seq![tok@]);
                done = done.push(tok@);
                assert(fields_of(s@) == done + fields_of(s@.skip(i as int)));
            }
            toks.push(tok);
        }
    }
    proof {
        assert(s@.skip(i as int) =~= Seq::<u8>::empty());
        assert(fields_of(s@) =~= done);
    }
    toks
}

/// Builds the bytes of `"http://"`.
pub fn http_prefix_vec() -> (v: Vec<u8>)
    ensures
        v@ == http_prefix(),
{
    let mut v: Vec<u8> = Vec::new();
    v.push(104);
    v.push(116);
    v.push(116);
    v.push(112);
    v.push(58);
    v.push(47);
    v.push(47);
    proof {
        assert(v@ =~= http_prefix());
    }
    v
}

/// Builds the bytes of `"https://"`.
pub fn https_prefix_vec() -> (v: Vec<u8>)
    ensures
        v@ == https_prefix(),
{
    let mut v: Vec<u8> = Vec::new();
    v.push(104);
    v.push(116);
    v.push(116);
    v.push(112);
    v.push(115);
    v.push(58);
    v.push(47);
    v.push(47);
    proof {
        assert(v@ =~= https_prefix());
    }
    v
}

fn connect_method_vec() -> (v: Vec<u8>)
    ensures
        v@ == connect_method(),
{
    let mut v: Vec<u8> = Vec::new();
    v.push(67);
    v.push(79);
    v.push(78);
    v.push(78);
    v.push(69);
    v.push(67);
    v.push(84);
    proof {
        assert(v@ =~= connect_method());
    }
    v
}

/// Extracts the URL that one access-log line of the external proxy records,
/// or `None` when the line has fewer than 8 fields.
pub fn parse_squid_log_line(line: &[u8]) -> (r: Option<Vec<u8>>)
    ensures
        match r {
            Some(u) => parsed_url(line@) == Some(u@),
            None => parsed_url(line@) is None,
        },
{
    let toks = split_fields(line);
    if toks.len() < 8 {
        return None;
    }
    let http = http_prefix_vec();
    let https = https_prefix_vec();
    let target = &toks[6];
    if slice_has_prefix(target.as_slice(), http.as_slice()) || slice_has_prefix(
        target.as_slice(),
        https.as_slice(),
    ) {
        let mut url: Vec<u8> = Vec::new();
        url.extend_from_slice(target.as_slice());
        proof {
            assert(url@ =~= fields_of(line@)[6]);
        }
        return Some(url);
    }
    let connect = connect_method_vec();
    let host = &toks[7];
    if bytes_eq(toks[5].as_slice(), connect.as_slice()) {
        let mut url = https;
        url.extend_from_slice(host.as_slice());
        return Some(url);
    }
    let mut url = http;
    url.extend_from_slice(host.as_slice());
    Some(url)
}

/// Law: a line of at least 8 fields whose request-target field already
/// carries an `http://` or `https://` scheme parses to that target,
/// verbatim.
pub proof fn lemma_parse_target_verbatim(s: Seq<u8>)
    requires
        fields_of(s).len() >= 8,
        has_prefix(fields_of(s)[6], http_prefix()) || has_prefix(fields_of(s)[6], https_prefix()),
    ensures
        parsed_url(s) == Some(fields_of(s)[6]),
{
}

/// Law: a line of at least 8 fields whose method field is `CONNECT`, and
/// whose request target carries no scheme of its own, parses to `https://`
/// followed by the Host field.
pub proof fn lemma_parse_connect(s: Seq<u8>)
    requires
        fields_of(s).len() >= 8,
        !has_prefix(fields_of(s)[6], http_prefix()),
        !has_prefix(fields_of(s)[6], https_prefix()),
        fields_of(s)[5] == connect_method(),
    ensures
        parsed_url(s) == Some(https_prefix() + fields_of(s)[7]),
{
}

/// Law: any other line of at least 8 fields — target without a scheme,
/// method other than `CONNECT` — parses to `http://` followed by the Host
/// field.
pub proof fn lemma_parse_plain(s: Seq<u8>)
    requires
        fields_of(s).len() >= 8,
        !has_prefix(fields_of(s)[6], http_prefix()),
        !has_prefix(fields_of(s)[6], https_prefix()),
        fields_of(s)[5] != connect_method(),
    ensures
        parsed_url(s) == Some(http_prefix() + fields_of(s)[7]),
{
}

/// Law: a line with fewer than 8 fields parses to nothing.
pub proof fn lemma_parse_short_line(s: Seq<u8>)
    requires
        fields_of(s).len() < 8,
    ensures
        parsed_url(s) is None,
{
}

} // verus!
