use vstd::prelude::*;

verus! {

/// Bytes that are written escaped inside a quoted string: the quote and the
/// backslash, which would break the string's framing, and the two line
/// terminators, which would break the one-record-per-line framing.
pub open spec fn needs_escape(b: u8) -> bool {
    b == 34 || b == 92 || b == 10 || b == 13
}

/// The byte that follows the backslash when `b` is written escaped.
pub open spec fn escape_code(b: u8) -> u8 {
    if b == 10 {
        110
    } else if b == 13 {
        114
    } else {
        b
    }
}

/// The byte that an escape pair `\c` stands for, if `c` is a recognised
/// escape code.
pub open spec fn unescape_code(c: u8) -> Option<u8> {
    if c == 110 {
        Some(10)
    } else if c == 114 {
        Some(13)
    } else if c == 34 || c == 92 {
        Some(c)
    } else {
        None
    }
}

/// `s` written as the body of a quoted string: quotes, backslashes and line
/// terminators become two-byte escape pairs, every other byte stands as it
/// is.
pub open spec fn escaped(s: Seq<u8>) -> Seq<u8>
    decreases s.len(),
{
    if s.len() == 0 {
        Seq::empty()
    } else {
        let head = if needs_escape(s[0]) {
            seq![92u8, escape_code(s[0])]
        } else {
            seq![s[0]]
        };
        head + escaped(s.drop_first())
    }
}

/// Reads a quoted string's body from the front of `s`, up to and including
/// its closing quote: the decoded content and the number of bytes consumed.
/// `None` when the quote never closes or an escape pair is malformed.
pub open spec fn scan_string(s: Seq<u8>) -> Option<(Seq<u8>, int)>
    decreases s.len(),
{
    if s.len() == 0 {
        None
    } else if s[0] == 34 {
        Some((Seq::empty(), 1))
    } else if s[0] == 92 {
        if s.len() >= 2 {
            match unescape_code(s[1]) {
                Some(b) => match scan_string(s.skip(2)) {
                    Some(p) => Some((seq![b] + p.0, 2 + p.1)),
                    None => None,
                },
                None => None,
            }
        } else {
            None
        }
    } else {
        match scan_string(s.drop_first()) {
            Some(p) => Some((seq![s[0]] + p.0, 1 + p.1)),
            None => None,
        }
    }
}

/// Appends the escaped form of `s` to `out`.
pub fn escape_into(out: &mut Vec<u8>, s: &[u8])
    ensures
        final(out)@ == old(out)@ + escaped(s@),
{
    let ghost orig = out@;
    let mut i: usize = 0;
    proof {
        assert(s@.skip(0) =~= s@);
    }
    while i < s.len()
        invariant
            i <= s@.len(),
            orig == old(out)@,
            orig + escaped(s@) == out@ + escaped(s@.skip(i as int)),
        decreases s@.len() - i,
    {
        let b = s[i];
        let ghost rest = s@.skip(i as int);
        proof {
            assert(rest[0] == s@[i as int]);
            assert(rest.drop_first() =~= s@.skip(i as int + 1));
        }
        if b == 34 || b == 92 || b == 10 || b == 13 {
            out.push(92);
            if b == 10 {
                out.push(110);
            } else if b == 13 {
                out.push(114);
            } else {
                out.push(b);
            }
            proof {
                assert(escaped(rest) =~= seq![92u8, escape_code(b)] + escaped(rest.drop_first()));
            }
        } else {
            out.push(b);
            proof {
                assert(escaped(rest) =~= seq![b] + escaped(rest.drop_first()));
            }
        }
        proof {
            assert(orig + escaped(s@) =~= out@ + escaped(s@.skip(i as int + 1)));
        }
        i += 1;
    }
    proof {
        assert(s@.skip(i as int) =~= Seq::<u8>::empty());
        assert(orig + escaped(s@) =~= out@);
    }
}

/// Reads a quoted string's body from `s` starting at `from`, per
/// `scan_string`: the decoded content and the index just past the closing
/// quote.
pub fn scan_string_from(s: &[u8], from: usize) -> (r: Option<(Vec<u8>, usize)>)
    requires
        from <= s@.len(),
    ensures
        match r {
            Some(p) => {
                &&& scan_string(s@.skip(from as int)) == Some((p.0@, p.1 - from as int))
                &&& from < p.1 <= s@.len()
            },
            None => scan_string(s@.skip(from as int)) is None,
        },
{
    let mut i = from;
    let mut out: Vec<u8> = Vec::new();
    loop
        invariant
            from <= i <= s@.len(),
            scan_string(s@.skip(from as int)) == (match scan_string(s@.skip(i as int)) {
                Some(p) => Some::<(Seq<u8>, int)>((out@ + p.0, (i - from) + p.1)),
                None => None::<(Seq<u8>, int)>,
            }),
        decreases s@.len() - i,
    {
        let ghost rest = s@.skip(i as int);
        if i == s.len() {
            proof {
                assert(rest =~= Seq::<u8>::empty());
            }
            return None;
        }
        let b = s[i];
        proof {
            assert(rest[0] == s@[i as int]);
            assert(rest.drop_first() =~= s@.skip(i as int + 1));
            if i + 2 <= s@.len() {
                assert(rest.skip(2) =~= s@.skip(i as int + 2));
            }
        }
        if b == 34 {
            proof {
                assert(out@ + Seq::<u8>::empty() =~= out@);
            }
            return Some((out, i + 1));
        } else if b == 92 {
            if i + 1 == s.len() {
                return None;
            }
            let c = s[i + 1];
            proof {
                assert(rest[1] == s@[i as int + 1]);
            }
            let u: u8 = if c == 110 {
                10
            } else if c == 114 {
                13
            } else if c == 34 || c == 92 {
                c
            } else {
                return None;
            };
            let ghost before = out@;
            out.push(u);
            proof {
                assert(out@ =~= before + seq![u]);
                assert(scan_string(s@.skip(i as int + 2)) matches Some(p) ==> (before + seq![u])
                    + p.0 =~= before + (seq![u] + p.0));
            }
            i += 2;
        } else {
            let ghost before = out@;
            out.push(b);
            proof {
                assert(out@ =~= before + seq![b]);
                assert(scan_string(s@.skip(i as int + 1)) matches Some(p) ==> (before + seq![b])
                    + p.0 =~= before + (seq![b] + p.0));
            }
            i += 1;
        }
    }
}

/// Law, one step of the record round trip: scanning a quoted string that was
/// written by `escaped`, with its closing quote and anything after it, gives
/// back exactly the bytes that were escaped and stops at the quote.
pub proof fn lemma_scan_escaped(s: Seq<u8>, rest: Seq<u8>)
    ensures
        scan_string(escaped(s) + seq![34u8] + rest) == Some((s, escaped(s).len() + 1 as int)),
    decreases s.len(),
{
    let whole = escaped(s) + seq![34u8] + rest;
    if s.len() == 0 {
        assert(whole =~= seq![34u8] + rest);
        assert(whole[0] == 34);
        assert(s =~= Seq::<u8>::empty());
    } else {
        lemma_scan_escaped(s.drop_first(), rest);
        let tail_whole = escaped(s.drop_first()) + seq![34u8] + rest;
        if needs_escape(s[0]) {
            assert(escaped(s) =~= seq![92u8, escape_code(s[0])] + escaped(s.drop_first()));
            assert(whole =~= seq![92u8, escape_code(s[0])] + tail_whole);
            assert(whole[0] == 92);
            assert(whole[1] == escape_code(s[0]));
            assert(unescape_code(escape_code(s[0])) == Some(s[0]));
            assert(whole.skip(2) =~= tail_whole);
            assert(seq![s[0]] + s.drop_first() =~= s);
        } else {
            assert(escaped(s) =~= seq![s[0]] + escaped(s.drop_first()));
            assert(whole =~= seq![s[0]] + tail_whole);
            assert(whole[0] == s[0]);
            assert(whole[0] != 34 && whole[0] != 92);
            assert(whole.drop_first() =~= tail_whole);
            assert(seq![s[0]] + s.drop_first() =~= s);
        }
    }
}

} // verus!

verus! {

/// The longest newline-free prefix of `s`.
pub open spec fn line_prefix(s: Seq<u8>) -> Seq<u8>
    decreases s.len(),
{
    if s.len() == 0 || s[0] == 10 {
        Seq::empty()
    } else {
        seq![s[0]] + line_prefix(s.drop_first())
    }
}

proof fn lemma_line_prefix_len(s: Seq<u8>)
    ensures
        line_prefix(s).len() <= s.len(),
    decreases s.len(),
{
    if s.len() == 0 || s[0] == 10 {
    } else {
        lemma_line_prefix_len(s.drop_first());
    }
}

/// The lines of `s`: maximal newline-free runs, the terminators themselves
/// dropped; a trailing run without a terminator is itself a line.
pub open spec fn lines_of(s: Seq<u8>) -> Seq<Seq<u8>>
    decreases s.len(),
    via lines_of_decreases
{
    if s.len() == 0 {
        Seq::empty()
    } else {
        let l = line_prefix(s);
        if l.len() == s.len() {
            seq![l]
        } else {
            seq![l] + lines_of(s.skip(l.len() as int + 1))
        }
    }
}

#[via_fn]
proof fn lines_of_decreases(s: Seq<u8>) {
    lemma_line_prefix_len(s);
}

/// The length of the complete, newline-terminated prefix of `s`: everything
/// up to and including the last newline, or nothing when there is none.
pub open spec fn complete_len(s: Seq<u8>) -> nat
    decreases s.len(),
{
    if s.len() == 0 {
        0
    } else if s.last() == 10 {
        s.len()
    } else {
        complete_len(s.drop_last())
    }
}

pub proof fn lemma_complete_len_le(s: Seq<u8>)
    ensures
        complete_len(s) <= s.len(),
    decreases s.len(),
{
    if s.len() > 0 && s.last() != 10 {
        lemma_complete_len_le(s.drop_last());
    }
}

/// Where the last newline of `s` sits at index `j`, the complete prefix ends
/// just after it.
pub proof fn lemma_complete_len_at(s: Seq<u8>, j: int)
    requires
        0 <= j < s.len(),
        s[j] == 10,
        forall|k: int| j < k < s.len() ==> s[k] != 10,
    ensures
        complete_len(s) == j + 1,
    decreases s.len(),
{
    if j == s.len() - 1 {
        assert(s.last() == 10);
    } else {
        assert(s.last() != 10);
        lemma_complete_len_at(s.drop_last(), j);
    }
}

/// Where `s` holds no newline at all, nothing of it is complete.
pub proof fn lemma_complete_len_none(s: Seq<u8>)
    requires
        forall|k: int| 0 <= k < s.len() ==> s[k] != 10,
    ensures
        complete_len(s) == 0,
    decreases s.len(),
{
    if s.len() > 0 {
        assert(s.last() != 10);
        lemma_complete_len_none(s.drop_last());
    }
}

/// Where the bytes from `pos` start with a newline-free run up to `q` and a
/// newline at `q`, the first line is exactly that run.
pub proof fn lemma_lines_step(s: Seq<u8>, pos: int, q: int)
    requires
        0 <= pos <= q < s.len(),
        forall|k: int| pos <= k < q ==> s[k] != 10,
        s[q] == 10,
    ensures
        lines_of(s.skip(pos)) == seq![s.subrange(pos, q)] + lines_of(s.skip(q + 1)),
{
    let rest = s.skip(pos);
    lemma_line_prefix_exact(rest, q - pos);
    assert(rest.subrange(0, q - pos) =~= s.subrange(pos, q));
    assert(line_prefix(rest).len() == q - pos);
    assert(rest.len() == s.len() - pos);
    assert(line_prefix(rest).len() != rest.len());
    assert(rest.skip(q - pos + 1) =~= s.skip(q + 1));
}

/// Where the bytes from `pos` to the end hold no newline and are non-empty,
/// they form the one remaining (unterminated) line.
pub proof fn lemma_lines_last(s: Seq<u8>, pos: int)
    requires
        0 <= pos < s.len(),
        forall|k: int| pos <= k < s.len() ==> s[k] != 10,
    ensures
        lines_of(s.skip(pos)) == seq![s.subrange(pos, s.len() as int)],
{
    let rest = s.skip(pos);
    lemma_line_prefix_exact(rest, rest.len() as int);
    assert(rest.subrange(0, rest.len() as int) =~= rest);
    assert(rest =~= s.subrange(pos, s.len() as int));
}

proof fn lemma_line_prefix_exact(s: Seq<u8>, k: int)
    requires
        0 <= k <= s.len(),
        forall|j: int| 0 <= j < k ==> s[j] != 10,
        k == s.len() || s[k] == 10,
    ensures
        line_prefix(s) == s.subrange(0, k),
    decreases k,
{
    if k == 0 {
        assert(line_prefix(s) =~= s.subrange(0, 0));
    } else {
        assert(s[0] != 10);
        lemma_line_prefix_exact(s.drop_first(), k - 1);
        assert(s.drop_first().subrange(0, k - 1) =~= s.subrange(1, k));
        assert(seq![s[0]] + s.subrange(1, k) =~= s.subrange(0, k));
    }
}

} // verus!

verus! {

/// A store file in which every record line is terminated.
pub open spec fn newline_complete(s: Seq<u8>) -> bool {
    s.len() == 0 || s.last() == 10
}

/// What `line_prefix` picks: the run up to the first newline, or everything
/// when there is none.
pub proof fn lemma_line_prefix_char(s: Seq<u8>)
    ensures
        line_prefix(s).len() <= s.len(),
        line_prefix(s) == s.subrange(0, line_prefix(s).len() as int),
        forall|j: int| 0 <= j < line_prefix(s).len() ==> s[j] != 10,
        line_prefix(s).len() < s.len() ==> s[line_prefix(s).len() as int] == 10,
    decreases s.len(),
{
    if s.len() == 0 || s[0] == 10 {
        assert(line_prefix(s) =~= s.subrange(0, 0));
    } else {
        lemma_line_prefix_char(s.drop_first());
        let l = line_prefix(s.drop_first());
        assert(line_prefix(s) == seq![s[0]] + l);
        assert(l == s.drop_first().subrange(0, l.len() as int));
        assert(forall|j: int| 0 <= j < l.len() ==> s.drop_first()[j] == s[j + 1]);
        assert(line_prefix(s) =~= s.subrange(0, l.len() as int + 1));
        assert forall|j: int| 0 <= j < line_prefix(s).len() implies s[j] != 10 by {
            if j > 0 {
                assert(s.drop_first()[j - 1] != 10);
            }
        }
        if l.len() < s.len() - 1 {
            assert(s.drop_first()[l.len() as int] == s[l.len() as int + 1]);
        }
    }
}

/// Escaping never emits a line terminator, whatever the input bytes.
pub proof fn lemma_escaped_no_newline(s: Seq<u8>)
    ensures
        forall|i: int| 0 <= i < escaped(s).len() ==> escaped(s)[i] != 10,
    decreases s.len(),
{
    if s.len() > 0 {
        lemma_escaped_no_newline(s.drop_first());
        let head: Seq<u8> = if needs_escape(s[0]) {
            seq![92u8, escape_code(s[0])]
        } else {
            seq![s[0]]
        };
        assert(escaped(s) == head + escaped(s.drop_first()));
        assert forall|i: int| 0 <= i < escaped(s).len() implies escaped(s)[i] != 10 by {
            if i >= head.len() {
                assert(escaped(s)[i] == escaped(s.drop_first())[i - head.len()]);
            }
        }
    }
}

/// Law, the framing side of `append`: adding one terminated, newline-free
/// line to a complete store file adds exactly that line to its lines.
pub proof fn lemma_lines_of_append(log: Seq<u8>, line: Seq<u8>)
    requires
        newline_complete(log),
        forall|i: int| 0 <= i < line.len() ==> line[i] != 10,
    ensures
        lines_of(log + line + seq![10u8]) == lines_of(log).push(line),
        newline_complete(log + line + seq![10u8]),
    decreases log.len(),
{
    let whole = log + line + seq![10u8];
    if log.len() == 0 {
        assert(whole =~= line + seq![10u8]);
        lemma_line_prefix_exact(whole, line.len() as int);
        assert(whole.subrange(0, line.len() as int) =~= line);
        assert(line_prefix(whole) == line);
        assert(line_prefix(whole).len() < whole.len());
        assert(whole.skip(line.len() as int + 1) =~= Seq::<u8>::empty());
        assert(lines_of(Seq::<u8>::empty()) =~= Seq::<Seq<u8>>::empty());
        assert(lines_of(whole) == seq![line_prefix(whole)] + lines_of(
            whole.skip(line_prefix(whole).len() as int + 1),
        ));
        assert(lines_of(whole) =~= seq![line]);
        assert(lines_of(log) =~= Seq::<Seq<u8>>::empty());
        assert(Seq::<Seq<u8>>::empty().push(line) =~= seq![line]);
    } else {
        lemma_line_prefix_char(log);
        let l0 = line_prefix(log);
        let q = l0.len() as int;
        assert(q < log.len()) by {
            if q == log.len() {
                assert(log[log.len() - 1] != 10);
            }
        }
        assert(log[q] == 10);
        lemma_line_prefix_exact(whole, q);
        assert(whole.subrange(0, q) =~= log.subrange(0, q));
        assert(line_prefix(whole) == l0);
        assert(lines_of(whole) == seq![l0] + lines_of(whole.skip(q + 1)));
        assert(lines_of(log) == seq![l0] + lines_of(log.skip(q + 1)));
        assert(whole.skip(q + 1) =~= log.skip(q + 1) + line + seq![10u8]);
        lemma_lines_of_append(log.skip(q + 1), line);
        assert(seq![l0] + lines_of(log.skip(q + 1)).push(line) =~= (seq![l0] + lines_of(
            log.skip(q + 1),
        )).push(line));
    }
}

} // verus!
