use vstd::prelude::*;
use crate::codec::{
    escaped, scan_string, escape_into, scan_string_from, lines_of, lemma_scan_escaped,
};
use crate::timefmt::{
    ts_in_range, rfc3339_of, rfc3339_value_of, format_rfc3339, parse_rfc3339, ts_ok,
};
use crate::util::{has_prefix, slice_has_prefix};

verus! {

/// One recorded visit: a URL and the instant it was seen, in milliseconds
/// since the Unix epoch.
pub struct Event {
    pub url: Vec<u8>,
    pub ts_ms: i64,
}

/// The mathematical shape of an event.
pub struct EventModel {
    pub url: Seq<u8>,
    pub ts: int,
}

impl View for Event {
    type V = EventModel;

    open spec fn view(&self) -> EventModel {
        EventModel { url: self.url@, ts: self.ts_ms as int }
    }
}

/// The models of a sequence of events.
pub open spec fn event_models(evs: Seq<Event>) -> Seq<EventModel> {
    Seq::new(evs.len(), |i: int| evs[i]@)
}

/// The bytes of `{"url":"`.
pub open spec fn url_key() -> Seq<u8> {
    seq![123u8, 34u8, 117u8, 114u8, 108u8, 34u8, 58u8, 34u8]
}

/// The bytes of `","ts":"`.
pub open spec fn ts_key() -> Seq<u8> {
    seq![44u8, 34u8, 116u8, 115u8, 34u8, 58u8, 34u8]
}

/// One stored record, without its line terminator: the URL and the RFC 3339
/// text of the instant, each escaped inside a quoted JSON field.
pub open spec fn encoded_event(e: EventModel) -> Seq<u8> {
    url_key() + escaped(e.url) + seq![34u8] + ts_key() + escaped(rfc3339_of(e.ts)) + seq![
        34u8,
        125u8,
    ]
}

/// The event one stored line records: both quoted fields read back, the
/// closing brace in place, and the timestamp text a valid RFC 3339 instant
/// in the persistable range. Anything else is a malformed line.
pub open spec fn decoded_event(line: Seq<u8>) -> Option<EventModel> {
    if !has_prefix(line, url_key()) {
        None
    } else {
        match scan_string(line.skip(8)) {
            Some(p1) => {
                let rest = line.skip(8 + p1.1);
                if !has_prefix(rest, ts_key()) {
                    None
                } else {
                    match scan_string(rest.skip(7)) {
                        Some(p2) => {
                            let tail = rest.skip(7 + p2.1);
                            if tail.len() == 1 && tail[0] == 125 {
                                match rfc3339_value_of(p2.0) {
                                    Some(ms) => if ts_in_range(ms) {
                                        Some(EventModel { url: p1.0, ts: ms })
                                    } else {
                                        None
                                    },
                                    None => None,
                                }
                            } else {
                                None
                            }
                        },
                        None => None,
                    }
                }
            },
            None => None,
        }
    }
}

/// The events a sequence of stored lines records, malformed lines skipped.
pub open spec fn events_of_lines(lines: Seq<Seq<u8>>) -> Seq<EventModel>
    decreases lines.len(),
{
    if lines.len() == 0 {
        Seq::empty()
    } else {
        match decoded_event(lines[0]) {
            Some(e) => seq![e] + events_of_lines(lines.drop_first()),
            None => events_of_lines(lines.drop_first()),
        }
    }
}

/// The events a whole store file records.
pub open spec fn events_of_bytes(bytes: Seq<u8>) -> Seq<EventModel> {
    events_of_lines(lines_of(bytes))
}

fn url_key_vec() -> (v: Vec<u8>)
    ensures
        v@ == url_key(),
{
    let mut v: Vec<u8> = Vec::new();
    v.push(123);
    v.push(34);
    v.push(117);
    v.push(114);
    v.push(108);
    v.push(34);
    v.push(58);
    v.push(34);
    proof {
        assert(v@ =~= url_key());
    }
    v
}

fn ts_key_vec() -> (v: Vec<u8>)
    ensures
        v@ == ts_key(),
{
    let mut v: Vec<u8> = Vec::new();
    v.push(44);
    v.push(34);
    v.push(116);
    v.push(115);
    v.push(34);
    v.push(58);
    v.push(34);
    proof {
        assert(v@ =~= ts_key());
    }
    v
}

/// Writes one event as a stored line (terminator not included), and proves
/// the line reads back as exactly that event.
pub fn encode_event(url: &Vec<u8>, ts_ms: i64) -> (r: Vec<u8>)
    requires
        ts_in_range(ts_ms as int),
    ensures
        r@ == encoded_event(EventModel { url: url@, ts: ts_ms as int }),
        decoded_event(r@) == Some(EventModel { url: url@, ts: ts_ms as int }),
{
    let ghost e = EventModel { url: url@, ts: ts_ms as int };
    let mut out = url_key_vec();
    escape_into(&mut out, url.as_slice());
    out.push(34);
    let key2 = ts_key_vec();
    out.extend_from_slice(key2.as_slice());
    let ts_text = format_rfc3339(ts_ms);
    escape_into(&mut out, ts_text.as_slice());
    out.push(34);
    out.push(125);
    proof {
        assert(out@ =~= encoded_event(e));
        lemma_decode_encoded(e, ts_text@);
    }
    out
}

proof fn lemma_decode_encoded(e: EventModel, ts_text: Seq<u8>)
    requires
        ts_text == rfc3339_of(e.ts),
        rfc3339_value_of(ts_text) == Some(e.ts),
        ts_in_range(e.ts),
    ensures
        decoded_event(encoded_event(e)) == Some(e),
{
    let line = encoded_event(e);
    let rest1 = ts_key() + escaped(ts_text) + seq![34u8] + seq![125u8];
    assert(has_prefix(line, url_key())) by {
        assert(line.subrange(0, 8) =~= url_key());
    }
    assert(line.skip(8) =~= escaped(e.url) + seq![34u8] + rest1);
    lemma_scan_escaped(e.url, rest1);
    let c1 = escaped(e.url).len() + 1 as int;
    assert(scan_string(line.skip(8)) == Some((e.url, c1)));
    let rest = line.skip(8 + c1);
    assert(rest =~= rest1);
    assert(has_prefix(rest, ts_key())) by {
        assert(rest1.subrange(0, 7) =~= ts_key());
    }
    assert(rest.skip(7) =~= escaped(ts_text) + seq![34u8] + seq![125u8]);
    lemma_scan_escaped(ts_text, seq![125u8]);
    let c2 = escaped(ts_text).len() + 1 as int;
    assert(scan_string(rest.skip(7)) == Some((ts_text, c2)));
    let tail = rest.skip(7 + c2);
    assert(tail =~= seq![125u8]);
}

/// Reads one stored line back as an event, or `None` where the line is
/// malformed.
pub fn decode_event_line(line: &[u8]) -> (r: Option<Event>)
    ensures
        match r {
            Some(ev) => decoded_event(line@) == Some(ev@) && ts_in_range(ev.ts_ms as int),
            None => decoded_event(line@) is None,
        },
{
    let key = url_key_vec();
    if !slice_has_prefix(line, key.as_slice()) {
        return None;
    }
    let (url, n1) = match scan_string_from(line, 8) {
        Some(p) => p,
        None => {
            return None;
        },
    };
    let rest = &line[n1..line.len()];
    proof {
        assert(rest@ =~= line@.skip(n1 as int));
    }
    let key2 = ts_key_vec();
    if !slice_has_prefix(rest, key2.as_slice()) {
        return None;
    }
    let (ts_text, n2) = match scan_string_from(rest, 7) {
        Some(p) => p,
        None => {
            return None;
        },
    };
    let tail = &rest[n2..rest.len()];
    proof {
        assert(tail@ =~= rest@.skip(n2 as int));
    }
    if !(tail.len() == 1 && tail[0] == 125) {
        return None;
    }
    let ms = match parse_rfc3339(ts_text.as_slice()) {
        Some(ms) => ms,
        None => {
            return None;
        },
    };
    if !ts_ok(ms) {
        return None;
    }
    Some(Event { url, ts_ms: ms })
}

} // verus!

verus! {

proof fn lemma_events_of_lines_push(lines: Seq<Seq<u8>>, l: Seq<u8>)
    ensures
        events_of_lines(lines.push(l)) == events_of_lines(lines) + (match decoded_event(l) {
            Some(e) => seq![e],
            None => Seq::<EventModel>::empty(),
        }),
    decreases lines.len(),
{
    let tail = (match decoded_event(l) {
        Some(e) => seq![e],
        None => Seq::<EventModel>::empty(),
    });
    if lines.len() == 0 {
        assert(lines.push(l) =~= seq![l]);
        assert(seq![l].drop_first() =~= Seq::<Seq<u8>>::empty());
        assert(events_of_lines(Seq::<Seq<u8>>::empty()) =~= Seq::<EventModel>::empty());
        assert(events_of_lines(lines) + tail =~= tail);
        match decoded_event(l) {
            Some(e) => {
                assert(seq![e] + Seq::<EventModel>::empty() =~= seq![e]);
            },
            None => {},
        }
    } else {
        lemma_events_of_lines_push(lines.drop_first(), l);
        assert(lines.push(l).drop_first() =~= lines.drop_first().push(l));
        assert(lines.push(l)[0] == lines[0]);
        match decoded_event(lines[0]) {
            Some(e0) => {
                assert(seq![e0] + (events_of_lines(lines.drop_first()) + tail) =~= (seq![e0]
                    + events_of_lines(lines.drop_first())) + tail);
            },
            None => {},
        }
    }
}

/// Appends one record to the store's byte log, as the Event Log Store's
/// `append` does: the new line is written whole and terminated, and the log
/// afterwards records exactly the old events followed by the new one.
pub fn append_log_line(log: &mut Vec<u8>, url: &Vec<u8>, ts_ms: i64)
    requires
        ts_in_range(ts_ms as int),
        crate::codec::newline_complete(old(log)@),
    ensures
        final(log)@ == old(log)@ + encoded_event(EventModel { url: url@, ts: ts_ms as int })
            + seq![10u8],
        crate::codec::newline_complete(final(log)@),
        events_of_bytes(final(log)@) == events_of_bytes(old(log)@).push(
            EventModel { url: url@, ts: ts_ms as int },
        ),
{
    let ghost e = EventModel { url: url@, ts: ts_ms as int };
    let line = encode_event(url, ts_ms);
    log.extend_from_slice(line.as_slice());
    log.push(10);
    proof {
        assert(log@ =~= old(log)@ + line@ + seq![10u8]);
        assert forall|i: int| 0 <= i < line@.len() implies line@[i] != 10 by {
            crate::codec::lemma_escaped_no_newline(e.url);
            crate::codec::lemma_escaped_no_newline(rfc3339_of(e.ts));
            let a = url_key() + escaped(e.url);
            let b = a + seq![34u8];
            let c = b + ts_key();
            let d = c + escaped(rfc3339_of(e.ts));
            assert(line@ =~= d + seq![34u8, 125u8]);
            if i < 8 {
            } else if i < a.len() {
                assert(a[i] == escaped(e.url)[i - 8]);
            } else if i < b.len() {
            } else if i < c.len() {
            } else if i < d.len() {
                assert(d[i] == escaped(rfc3339_of(e.ts))[i - c.len()]);
            }
        }
        crate::codec::lemma_lines_of_append(old(log)@, line@);
        lemma_events_of_lines_push(lines_of(old(log)@), line@);
        assert(events_of_bytes(log@) =~= events_of_bytes(old(log)@).push(e));
    }
}

/// Reads a whole store file back as its events, skipping malformed lines.
pub fn read_events(log: &[u8]) -> (r: Vec<Event>)
    ensures
        event_models(r@) == events_of_bytes(log@),
{
    let mut out: Vec<Event> = Vec::new();
    let mut pos: usize = 0;
    proof {
        assert(log@.skip(0) =~= log@);
        assert(event_models(out@) =~= Seq::<EventModel>::empty());
        assert(event_models(out@) + events_of_lines(lines_of(log@)) =~= events_of_lines(
            lines_of(log@),
        ));
    }
    while pos < log.len()
        invariant
            pos <= log@.len(),
            events_of_bytes(log@) == event_models(out@) + events_of_lines(
                lines_of(log@.skip(pos as int)),
            ),
        decreases log@.len() - pos,
    {
        let mut j = pos;
        while j < log.len() && log[j] != 10
            invariant
                pos <= j <= log@.len(),
                forall|k: int| pos <= k < j ==> log@[k] != 10,
            decreases log@.len() - j,
        {
            j += 1;
        }
        let line = &log[pos..j];
        proof {
            assert(line@ =~= log@.subrange(pos as int, j as int));
        }
        let ghost lns = lines_of(log@.skip(pos as int));
        proof {
            if j < log@.len() {
                crate::codec::lemma_lines_step(log@, pos as int, j as int);
                assert(lns[0] == line@);
                assert(lns.drop_first() =~= lines_of(log@.skip(j as int + 1)));
            } else {
                crate::codec::lemma_lines_last(log@, pos as int);
                assert(lns[0] == line@);
                assert(lns.drop_first() =~= Seq::<Seq<u8>>::empty());
                assert(events_of_lines(Seq::<Seq<u8>>::empty()) =~= Seq::<EventModel>::empty());
                assert(lines_of(log@.skip(log@.len() as int)) =~= Seq::<Seq<u8>>::empty());
            }
        }
        match decode_event_line(line) {
            Some(ev) => {
                let ghost before = out@;
                out.push(ev);
                proof {
                    assert(event_models(out@) =~= event_models(before).push(ev@));
                    assert(events_of_lines(lns) == seq![ev@] + events_of_lines(lns.drop_first()));
                    assert(event_models(before).push(ev@) + events_of_lines(lns.drop_first())
                        =~= event_models(before) + (seq![ev@] + events_of_lines(
                        lns.drop_first(),
                    )));
                }
            },
            None => {
                proof {
                    assert(events_of_lines(lns) == events_of_lines(lns.drop_first()));
                }
            },
        }
        if j < log.len() {
            pos = j + 1;
        } else {
            pos = j;
            proof {
                assert(events_of_bytes(log@) =~= event_models(out@));
            }
            return out;
        }
    }
    proof {
        assert(lines_of(log@.skip(pos as int)) =~= Seq::<Seq<u8>>::empty());
        assert(events_of_lines(Seq::<Seq<u8>>::empty()) =~= Seq::<EventModel>::empty());
        assert(events_of_bytes(log@) =~= event_models(out@));
    }
    out
}

/// The bounded, cutoff-filtered replay of the store: the URLs of the first
/// `limit` events whose timestamp is at or after `cutoff`, in append order.
pub open spec fn read_since_spec(evs: Seq<EventModel>, cutoff: int, limit: nat) -> Seq<Seq<u8>>
    decreases evs.len(),
{
    if evs.len() == 0 || limit == 0 {
        Seq::empty()
    } else if evs[0].ts >= cutoff {
        seq![evs[0].url] + read_since_spec(evs.drop_first(), cutoff, (limit - 1) as nat)
    } else {
        read_since_spec(evs.drop_first(), cutoff, limit)
    }
}

/// Law: a bounded read never returns more entries than its limit, even when
/// more events match.
pub proof fn lemma_read_since_limit(evs: Seq<EventModel>, cutoff: int, limit: nat)
    ensures
        read_since_spec(evs, cutoff, limit).len() <= limit,
    decreases evs.len(),
{
    if evs.len() == 0 || limit == 0 {
    } else if evs[0].ts >= cutoff {
        lemma_read_since_limit(evs.drop_first(), cutoff, (limit - 1) as nat);
    } else {
        lemma_read_since_limit(evs.drop_first(), cutoff, limit);
    }
}

/// Law, the append/read round trip: with a limit at least the store's size,
/// a read returns exactly the URLs of the events at or after the cutoff, in
/// append order — every such event appears, and no earlier-stamped event
/// does.
pub proof fn lemma_read_since_complete(evs: Seq<EventModel>, cutoff: int, limit: nat)
    requires
        limit >= evs.len(),
    ensures
        read_since_spec(evs, cutoff, limit) == evs.filter(|e: EventModel| e.ts >= cutoff)
            .map_values(|e: EventModel| e.url),
    decreases evs.len(),
{
    reveal(Seq::filter);
    let pred = |e: EventModel| e.ts >= cutoff;
    let get_url = |e: EventModel| e.url;
    if evs.len() == 0 {
        assert(evs.filter(pred) =~= Seq::<EventModel>::empty());
        assert(read_since_spec(evs, cutoff, limit) =~= evs.filter(pred).map_values(get_url));
    } else {
        let head = seq![evs[0]];
        let rest = evs.drop_first();
        if evs[0].ts >= cutoff {
            lemma_read_since_complete(rest, cutoff, (limit - 1) as nat);
        } else {
            lemma_read_since_complete(rest, cutoff, limit);
        }
        assert(evs =~= head + rest);
        Seq::filter_distributes_over_add(head, rest, pred);
        assert(head.drop_last() =~= Seq::<EventModel>::empty());
        assert(Seq::<EventModel>::empty().filter(pred) =~= Seq::<EventModel>::empty());
        if pred(evs[0]) {
            assert(head.filter(pred) =~= seq![evs[0]]);
        } else {
            assert(head.filter(pred) =~= Seq::<EventModel>::empty());
        }
        assert(read_since_spec(evs, cutoff, limit) =~= evs.filter(pred).map_values(get_url));
    }
}

/// The bounded, cutoff-filtered replay, as the Event Log Store's
/// `read_since` offers it: a sequential scan from the front, keeping the
/// first `limit` URLs stamped at or after `cutoff`.
pub fn read_since(events: &Vec<Event>, cutoff: i64, limit: usize) -> (r: Vec<Vec<u8>>)
    ensures
        r@.len() == read_since_spec(event_models(events@), cutoff as int, limit as nat).len(),
        forall|j: int| 0 <= j < r@.len() ==> r@[j]@ == read_since_spec(
            event_models(events@),
            cutoff as int,
            limit as nat,
        )[j],
{
    let ghost target = read_since_spec(event_models(events@), cutoff as int, limit as nat);
    let mut out: Vec<Vec<u8>> = Vec::new();
    let mut i: usize = 0;
    proof {
        assert(event_models(events@).skip(0) =~= event_models(events@));
    }
    let mut taken: usize = 0;
    while i < events.len() && taken < limit
        invariant
            i <= events@.len(),
            taken == out@.len(),
            taken <= limit,
            target == read_since_spec(event_models(events@), cutoff as int, limit as nat),
            target.len() >= out@.len(),
            forall|j: int| 0 <= j < out@.len() ==> out@[j]@ == target[j],
            target.skip(out@.len() as int) == read_since_spec(
                event_models(events@).skip(i as int),
                cutoff as int,
                (limit - taken) as nat,
            ),
        decreases events@.len() - i,
    {
        let ghost ms = event_models(events@).skip(i as int);
        proof {
            assert(ms[0] == event_models(events@)[i as int]);
            assert(ms.drop_first() =~= event_models(events@).skip(i as int + 1));
        }
        let ev = &events[i];
        if ev.ts_ms >= cutoff {
            let mut u: Vec<u8> = Vec::new();
            u.extend_from_slice(ev.url.as_slice());
            let ghost before = out@;
            out.push(u);
            taken += 1;
            proof {
                assert(target.skip(before.len() as int) == seq![ms[0].url] + read_since_spec(
                    ms.drop_first(),
                    cutoff as int,
                    (limit - taken) as nat,
                ));
                assert(target.skip(before.len() as int)[0] == ms[0].url);
                assert(target[before.len() as int] == ms[0].url);
                assert(target.skip(before.len() as int).drop_first() =~= target.skip(
                    out@.len() as int,
                ));
                assert((seq![ms[0].url] + read_since_spec(
                    ms.drop_first(),
                    cutoff as int,
                    (limit - taken) as nat,
                )).drop_first() =~= read_since_spec(
                    ms.drop_first(),
                    cutoff as int,
                    (limit - taken) as nat,
                ));
            }
        } else {
            proof {
                assert(target.skip(out@.len() as int) == read_since_spec(
                    ms.drop_first(),
                    cutoff as int,
                    (limit - taken) as nat,
                ));
            }
        }
        i += 1;
    }
    proof {
        if i == events@.len() {
            assert(event_models(events@).skip(i as int) =~= Seq::<EventModel>::empty());
        }
        assert(target.skip(out@.len() as int) =~= Seq::<Seq<u8>>::empty());
        assert(target.len() == out@.len());
    }
    out
}

} // verus!
