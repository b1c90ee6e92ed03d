//! What holds of the paste parser over whole streams of input.
use vstd::prelude::*;
use crate::paste::{
    bytes_event, first_at, first_occurrence, framed, held, lemma_first_occurrence,
    lemma_first_unique, lemma_overlap, lemma_overlap_unique, longest_overlap, occurs, occurs_at,
    overlap, overlaps_by, scan, settled, EventModel, PASTE_END, PASTE_START,
};

verus! {

/// The input that an event stands for.
pub open spec fn replay_one(event: EventModel) -> Seq<u8> {
    match event {
        EventModel::Bytes(bytes) => bytes,
        EventModel::Paste(payload) => framed(payload),
    }
}

/// The input that a list of events stands for.
pub open spec fn replay(events: Seq<EventModel>) -> Seq<u8>
    decreases events.len(),
{
    if events.len() == 0 {
        seq![]
    } else {
        replay_one(events.first()) + replay(events.drop_first())
    }
}

/// One byte of ordinary input, or one whole paste: events without regard to how runs of
/// ordinary bytes are cut.
pub enum Item {
    Byte(u8),
    Paste(Seq<u8>),
}

/// The items of one event.
pub open spec fn items_of(event: EventModel) -> Seq<Item> {
    match event {
        EventModel::Bytes(bytes) => bytes.map_values(|byte: u8| Item::Byte(byte)),
        EventModel::Paste(payload) => seq![Item::Paste(payload)],
    }
}

/// The items of a list of events.
pub open spec fn items(events: Seq<EventModel>) -> Seq<Item>
    decreases events.len(),
{
    if events.len() == 0 {
        seq![]
    } else {
        items_of(events.first()) + items(events.drop_first())
    }
}

/// Replaying two lists in turn is replaying their concatenation.
pub proof fn lemma_replay_concat(a: Seq<EventModel>, b: Seq<EventModel>)
    ensures
        replay(a + b) == replay(a) + replay(b),
    decreases a.len(),
{
    if a.len() == 0 {
        assert(a + b =~= b);
        assert(replay(a) + replay(b) =~= replay(b));
    } else {
        lemma_replay_concat(a.drop_first(), b);
        assert((a + b).drop_first() =~= a.drop_first() + b);
        assert(replay(a + b) =~= replay(a) + replay(b));
    }
}

/// The items of two lists in turn are those of their concatenation.
pub proof fn lemma_items_concat(a: Seq<EventModel>, b: Seq<EventModel>)
    ensures
        items(a + b) == items(a) + items(b),
    decreases a.len(),
{
    if a.len() == 0 {
        assert(a + b =~= b);
        assert(items(a) + items(b) =~= items(b));
    } else {
        lemma_items_concat(a.drop_first(), b);
        assert((a + b).drop_first() =~= a.drop_first() + b);
        assert(items(a + b) =~= items(a) + items(b));
    }
}

/// What a single event stands for.
pub proof fn lemma_single(event: EventModel)
    ensures
        replay(seq![event]) == replay_one(event),
        items(seq![event]) == items_of(event),
{
    let events = seq![event];
    assert(events.drop_first() =~= seq![]);
    assert(replay(events.drop_first()) =~= seq![]);
    assert(items(events.drop_first()) =~= seq![]);
    assert(replay(events) =~= replay_one(event));
    assert(items(events) =~= items_of(event));
}

/// What a run of ordinary bytes stands for.
pub proof fn lemma_bytes_event(s: Seq<u8>)
    ensures
        replay(bytes_event(s)) == s,
        items(bytes_event(s)) == items_of(EventModel::Bytes(s)),
{
    if s.len() > 0 {
        lemma_single(EventModel::Bytes(s));
    } else {
        assert(items(bytes_event(s)) =~= items_of(EventModel::Bytes(s)));
        assert(replay(bytes_event(s)) =~= s);
    }
}

/// Nothing is lost, invented or reordered: the events reported for a stretch of input,
/// followed by what is still held back, stand for exactly that input (with the opening
/// marker in front where it was read inside a paste).
pub proof fn law_nothing_is_lost(s: Seq<u8>, in_paste: bool)
    ensures
        ({
            let result = scan(s, in_paste);
            replay(result.events) + held(result.pending, result.in_paste) == held(s, in_paste)
        }),
    decreases s.len(),
{
    let marker = if in_paste {
        PASTE_END@
    } else {
        PASTE_START@
    };
    let result = scan(s, in_paste);
    lemma_first_occurrence(s, marker);
    match first_occurrence(s, marker) {
        Some(i) => {
            let rest = s.subrange(i + marker.len(), s.len() as int);
            let head = s.subrange(0, i);
            let tail = scan(rest, !in_paste);
            law_nothing_is_lost(rest, !in_paste);
            let first = if in_paste {
                seq![EventModel::Paste(head)]
            } else {
                bytes_event(head)
            };
            lemma_replay_concat(first, tail.events);
            lemma_single(EventModel::Paste(head));
            lemma_bytes_event(head);
            assert(s =~= head + marker + rest);
            assert(replay(result.events) + held(result.pending, result.in_paste) =~= replay(first)
                + held(rest, !in_paste));
            assert(replay(first) + held(rest, !in_paste) =~= held(s, in_paste));
        },
        None => {
            if !in_paste {
                lemma_overlap(s, PASTE_START@);
                let emit = s.len() - overlap(s, PASTE_START@);
                lemma_bytes_event(s.subrange(0, emit));
                assert(s.subrange(0, emit) + s.subrange(emit, s.len() as int) =~= s);
            } else {
                assert(replay(result.events) =~= seq![]);
                assert(seq![] + held(s, true) =~= held(s, true));
            }
        },
    }
}

/// A marker that is first in `a` at `i` is first in `a + b` at `i`.
proof fn lemma_first_in_prefix(a: Seq<u8>, b: Seq<u8>, marker: Seq<u8>, i: int)
    requires
        first_at(a, marker, i),
    ensures
        first_occurrence(a + b, marker) == Some(i),
{
    assert((a + b).subrange(i, i + marker.len()) =~= a.subrange(i, i + marker.len()));
    assert forall|j: int| 0 <= j < i implies !occurs_at(a + b, marker, j) by {
        if occurs_at(a + b, marker, j) {
            assert((a + b).subrange(j, j + marker.len()) =~= a.subrange(j, j + marker.len()));
            assert(occurs_at(a, marker, j));
        }
    }
    lemma_first_unique(a + b, marker, i);
}

/// Dropping a prefix moves the positions of a marker by its length.
proof fn lemma_occurs_shift(s: Seq<u8>, cut: int, marker: Seq<u8>, i: int)
    requires
        0 <= cut <= s.len(),
        cut <= i,
    ensures
        occurs_at(s, marker, i) == occurs_at(s.subrange(cut, s.len() as int), marker, i - cut),
{
    let t = s.subrange(cut, s.len() as int);
    if i + marker.len() <= s.len() {
        assert(s.subrange(i, i + marker.len()) =~= t.subrange(i - cut, i - cut + marker.len()));
    }
}

/// The items of a run of bytes are those of its two parts.
proof fn lemma_bytes_items_split(s: Seq<u8>, cut: int)
    requires
        0 <= cut <= s.len(),
    ensures
        items_of(EventModel::Bytes(s)) == items_of(EventModel::Bytes(s.subrange(0, cut)))
            + items_of(EventModel::Bytes(s.subrange(cut, s.len() as int))),
{
    assert(items_of(EventModel::Bytes(s)) =~= items_of(EventModel::Bytes(s.subrange(0, cut)))
        + items_of(EventModel::Bytes(s.subrange(cut, s.len() as int))));
}

/// How the input is cut into chunks does not matter: reading `a` and then `b` finds the same
/// pastes at the same places, passes on the same ordinary bytes and leaves the parser in the
/// same state as reading `a + b` at once. Only the cuts between runs of ordinary bytes move.
pub proof fn law_chunks_do_not_matter(a: Seq<u8>, b: Seq<u8>, in_paste: bool)
    ensures
        chunks_agree(a, b, in_paste),
    decreases a.len(),
{
    let marker = if in_paste {
        PASTE_END@
    } else {
        PASTE_START@
    };
    let first = scan(a, in_paste);
    let second = scan(first.pending + b, first.in_paste);
    let whole = scan(a + b, in_paste);
    lemma_first_occurrence(a, marker);
    match first_occurrence(a, marker) {
        Some(i) => {
            lemma_first_in_prefix(a, b, marker, i);
            let rest = a.subrange(i + marker.len(), a.len() as int);
            assert((a + b).subrange(i + marker.len(), (a + b).len() as int) =~= rest + b);
            assert((a + b).subrange(0, i) =~= a.subrange(0, i));
            law_chunks_do_not_matter(rest, b, !in_paste);
            let head = if in_paste {
                seq![EventModel::Paste(a.subrange(0, i))]
            } else {
                bytes_event(a.subrange(0, i))
            };
            lemma_items_concat(head, scan(rest, !in_paste).events);
            lemma_items_concat(head, scan(rest + b, !in_paste).events);
            assert(items(whole.events) =~= items(first.events) + items(second.events));
        },
        None => {
            if in_paste {
                assert(items(first.events) =~= seq![]);
                assert(items(whole.events) =~= items(first.events) + items(second.events));
            } else {
                match first_occurrence(a + b, marker) {
                    Some(i) => lemma_chunks_marker(a, b, i),
                    None => lemma_chunks_no_marker(a, b),
                }
            }
        },
    }
}

/// Where `a` holds no marker and everything but the beginning of one has been cut off, the
/// marker that is first in `a + b` is first in what remains.
proof fn lemma_first_after_cut(a: Seq<u8>, b: Seq<u8>, marker: Seq<u8>, emit: int, i: int)
    requires
        forall|j: int| !occurs_at(a, marker, j),
        longest_overlap(a, marker, a.len() - emit),
        first_at(a + b, marker, i),
    ensures
        emit <= i,
        first_occurrence(a.subrange(emit, a.len() as int) + b, marker) == Some(i - emit),
{
    let s = a + b;
    let t = a.subrange(emit, a.len() as int) + b;
    assert(t =~= s.subrange(emit, s.len() as int));
    if i + marker.len() <= a.len() {
        assert(s.subrange(i, i + marker.len()) =~= a.subrange(i, i + marker.len()));
        assert(occurs_at(a, marker, i));
    }
    if i < a.len() {
        let n = a.len() - i;
        assert(a.subrange(i, a.len() as int) =~= s.subrange(i, i + marker.len()).subrange(0, n));
        assert(overlaps_by(a, marker, n));
    }
    lemma_occurs_shift(s, emit, marker, i);
    assert forall|j: int| 0 <= j < i - emit implies !occurs_at(t, marker, j) by {
        lemma_occurs_shift(s, emit, marker, j + emit);
    }
    lemma_first_unique(t, marker, i - emit);
}

/// Where `a + b` holds no marker and everything but the beginning of one has been cut off
/// `a`, what remains holds none either and ends in the same beginning of a marker.
proof fn lemma_overlap_after_cut(a: Seq<u8>, b: Seq<u8>, marker: Seq<u8>, emit: int)
    requires
        forall|j: int| !occurs_at(a + b, marker, j),
        longest_overlap(a, marker, a.len() - emit),
    ensures
        first_occurrence(a.subrange(emit, a.len() as int) + b, marker) is None,
        overlap(a.subrange(emit, a.len() as int) + b, marker) == overlap(a + b, marker),
        overlap(a + b, marker) <= a.len() - emit + b.len(),
{
    let s = a + b;
    let t = a.subrange(emit, a.len() as int) + b;
    assert(t =~= s.subrange(emit, s.len() as int));
    assert forall|j: int| !occurs_at(t, marker, j) by {
        if occurs_at(t, marker, j) {
            lemma_occurs_shift(s, emit, marker, j + emit);
        }
    }
    lemma_overlap(s, marker);
    let k = overlap(s, marker);
    if k > t.len() {
        let m = k - b.len();
        assert(a.subrange(a.len() - m, a.len() as int) =~= s.subrange(
            s.len() - k,
            s.len() as int,
        ).subrange(0, m));
        assert(marker.subrange(0, k).subrange(0, m) =~= marker.subrange(0, m));
        assert(overlaps_by(a, marker, m));
    }
    assert(t.subrange(t.len() - k, t.len() as int) =~= s.subrange(s.len() - k, s.len() as int));
    assert(overlaps_by(t, marker, k));
    assert forall|m: int| overlaps_by(t, marker, m) implies m <= k by {
        assert(t.subrange(t.len() - m, t.len() as int) =~= s.subrange(s.len() - m, s.len() as int));
        assert(overlaps_by(s, marker, m));
    }
    lemma_overlap_unique(t, marker, k);
}

/// Reading `a` and then `b` comes to the same as reading `a + b`.
pub open spec fn chunks_agree(a: Seq<u8>, b: Seq<u8>, in_paste: bool) -> bool {
    let first = scan(a, in_paste);
    let second = scan(first.pending + b, first.in_paste);
    let whole = scan(a + b, in_paste);
    &&& items(whole.events) == items(first.events) + items(second.events)
    &&& whole.pending == second.pending
    &&& whole.in_paste == second.in_paste
}

/// The case of [`law_chunks_do_not_matter`] in which `a` is read outside a paste and the
/// opening marker is first found across its end or behind it.
proof fn lemma_chunks_marker(a: Seq<u8>, b: Seq<u8>, i: int)
    requires
        first_occurrence(a, PASTE_START@) is None,
        first_occurrence(a + b, PASTE_START@) == Some(i),
    ensures
        chunks_agree(a, b, false),
{
    let marker = PASTE_START@;
    let s = a + b;
    lemma_first_occurrence(a, marker);
    lemma_first_occurrence(s, marker);
    lemma_overlap(a, marker);
    let emit = a.len() - overlap(a, marker);
    let t = a.subrange(emit, a.len() as int) + b;
    lemma_first_after_cut(a, b, marker, emit, i);
    let rest = s.subrange(i + marker.len(), s.len() as int);
    assert(t.subrange(i - emit + marker.len(), t.len() as int) =~= rest);
    let tail = scan(rest, true);
    let head = s.subrange(0, i);
    let middle = t.subrange(0, i - emit);
    assert(scan(a, false).events == bytes_event(a.subrange(0, emit)));
    assert(scan(t, false).events == bytes_event(middle) + tail.events);
    assert(scan(s, false).events == bytes_event(head) + tail.events);
    lemma_bytes_event(a.subrange(0, emit));
    lemma_bytes_event(head);
    lemma_bytes_event(middle);
    lemma_items_concat(bytes_event(head), tail.events);
    lemma_items_concat(bytes_event(middle), tail.events);
    lemma_bytes_items_split(head, emit);
    assert(head.subrange(0, emit) =~= a.subrange(0, emit));
    assert(head.subrange(emit, i) =~= middle);
    assert(items(scan(s, false).events) =~= items(scan(a, false).events) + items(
        scan(t, false).events,
    ));
}

/// The case of [`law_chunks_do_not_matter`] in which everything is read outside a paste and
/// holds no opening marker.
proof fn lemma_chunks_no_marker(a: Seq<u8>, b: Seq<u8>)
    requires
        first_occurrence(a, PASTE_START@) is None,
        first_occurrence(a + b, PASTE_START@) is None,
    ensures
        chunks_agree(a, b, false),
{
    let marker = PASTE_START@;
    let s = a + b;
    lemma_first_occurrence(s, marker);
    lemma_overlap(a, marker);
    let emit = a.len() - overlap(a, marker);
    let t = a.subrange(emit, a.len() as int) + b;
    lemma_overlap_after_cut(a, b, marker, emit);
    lemma_overlap(s, marker);
    let k = overlap(s, marker);
    let head = s.subrange(0, s.len() - k);
    let middle = t.subrange(0, t.len() - k);
    assert(scan(a, false).events == bytes_event(a.subrange(0, emit)));
    assert(scan(t, false).events == bytes_event(middle));
    assert(scan(s, false).events == bytes_event(head));
    lemma_bytes_event(a.subrange(0, emit));
    lemma_bytes_event(head);
    lemma_bytes_event(middle);
    lemma_bytes_items_split(head, emit);
    assert(head.subrange(0, emit) =~= a.subrange(0, emit));
    assert(head.subrange(emit, head.len() as int) =~= middle);
    assert(scan(s, false).pending =~= scan(t, false).pending);
}

/// A marker whose first byte does not recur in it is first found behind a payload that does
/// not hold it, not across the boundary.
proof fn lemma_payload_end(payload: Seq<u8>, marker: Seq<u8>)
    requires
        marker.len() > 0,
        forall|k: int| 0 < k < marker.len() ==> #[trigger] marker[k] != marker[0],
        !occurs(payload, marker),
    ensures
        first_occurrence(payload + marker, marker) == Some(payload.len() as int),
{
    let body = payload + marker;
    assert(body.subrange(payload.len() as int, body.len() as int) =~= marker);
    assert forall|j: int| 0 <= j < payload.len() implies !occurs_at(body, marker, j) by {
        if occurs_at(body, marker, j) {
            let window = body.subrange(j, j + marker.len());
            if j + marker.len() <= payload.len() {
                assert(window =~= payload.subrange(j, j + marker.len()));
                assert(occurs_at(payload, marker, j));
            } else {
                let k = payload.len() - j;
                assert(window[k] == marker[0]);
                assert(window[k] == marker[k]);
            }
        }
    }
    lemma_first_unique(body, marker, payload.len() as int);
}

/// The first byte of the closing marker does not recur in it.
proof fn lemma_end_marker()
    ensures
        PASTE_END@.len() == 6,
        forall|k: int| 0 < k < 6 ==> #[trigger] PASTE_END@[k] != PASTE_END@[0],
{
    assert(PASTE_END@[0] == 0x1b);
    assert(PASTE_END@[1] == 0x5b);
    assert(PASTE_END@[2] == 0x32);
    assert(PASTE_END@[3] == 0x30);
    assert(PASTE_END@[4] == 0x31);
    assert(PASTE_END@[5] == 0x7e);
}

/// Read inside a paste, a payload and the marker behind it are one paste.
proof fn lemma_payload_scan(payload: Seq<u8>)
    requires
        !occurs(payload, PASTE_END@),
    ensures
        scan(payload + PASTE_END@, true).events == seq![EventModel::Paste(payload)],
        scan(payload + PASTE_END@, true).pending == Seq::<u8>::empty(),
        !scan(payload + PASTE_END@, true).in_paste,
{
    let body = payload + PASTE_END@;
    let none = Seq::<u8>::empty();
    lemma_end_marker();
    lemma_payload_end(payload, PASTE_END@);
    law_plain_input_passes_at_once(none);
    assert(body.subrange(payload.len() as int + PASTE_END@.len(), body.len() as int) =~= none);
    assert(body.subrange(0, payload.len() as int) =~= payload);
    assert(seq![EventModel::Paste(payload)] + scan(none, false).events =~= seq![
        EventModel::Paste(payload),
    ]);
}

/// A payload that holds no closing marker is read back as it was written: its frame is
/// exactly one paste, and nothing is held back behind it.
pub proof fn law_paste_round_trip(payload: Seq<u8>)
    requires
        !occurs(payload, PASTE_END@),
    ensures
        scan(framed(payload), false).events == seq![EventModel::Paste(payload)],
        scan(framed(payload), false).pending == Seq::<u8>::empty(),
        !scan(framed(payload), false).in_paste,
{
    let s = framed(payload);
    let body = payload + PASTE_END@;
    lemma_payload_scan(payload);
    lemma_end_marker();
    assert(s =~= PASTE_START@ + body);
    assert(s.subrange(0, PASTE_START@.len() as int) =~= PASTE_START@);
    assert(first_at(s, PASTE_START@, 0));
    lemma_first_unique(s, PASTE_START@, 0);
    assert(s.subrange(PASTE_START@.len() as int, s.len() as int) =~= body);
    assert(bytes_event(s.subrange(0, 0)) + scan(body, true).events =~= scan(body, true).events);
}

/// Outside a paste, input without an escape byte is passed on at once and whole.
pub proof fn law_plain_input_passes_at_once(s: Seq<u8>)
    requires
        forall|i: int| 0 <= i < s.len() ==> s[i] != PASTE_START@[0],
    ensures
        scan(s, false).events == bytes_event(s),
        scan(s, false).pending == Seq::<u8>::empty(),
        !scan(s, false).in_paste,
{
    let marker = PASTE_START@;
    assert forall|i: int| !occurs_at(s, marker, i) by {
        if occurs_at(s, marker, i) {
            assert(s.subrange(i, i + marker.len())[0] == s[i]);
        }
    }
    lemma_first_occurrence(s, marker);
    lemma_overlap(s, marker);
    let n = overlap(s, marker);
    if n > 0 {
        assert(s.subrange(s.len() - n, s.len() as int)[0] == marker.subrange(0, n)[0]);
    }
    assert(s.subrange(0, s.len() as int) =~= s);
    assert(s.subrange(s.len() as int, s.len() as int) =~= Seq::<u8>::empty());
}

/// The beginning of a marker is held back no longer than needed: the first byte that neither
/// continues it nor is itself an escape releases it, and nothing is held back any more. This
/// is how an arrow key gets through.
pub proof fn law_diverging_input_is_released(pending: Seq<u8>, byte: u8)
    requires
        settled(pending, false),
        byte != PASTE_START@[0],
        byte != PASTE_START@[pending.len() as int],
    ensures
        scan(pending.push(byte), false).events == seq![EventModel::Bytes(pending.push(byte))],
        scan(pending.push(byte), false).pending == Seq::<u8>::empty(),
        !scan(pending.push(byte), false).in_paste,
{
    let s = pending.push(byte);
    let marker = PASTE_START@;
    let n = pending.len() as int;
    assert forall|i: int| !occurs_at(s, marker, i) by {
        if occurs_at(s, marker, i) {
            assert(s.subrange(i, i + 6)[5] == s[i + 5]);
            assert(i == 0 && n == 5);
        }
    }
    lemma_first_occurrence(s, marker);
    lemma_overlap(s, marker);
    let m = overlap(s, marker);
    if m > 0 {
        let end = s.subrange(s.len() - m, s.len() as int);
        let front = marker.subrange(0, m);
        assert(end[0] == front[0]);
        if m < s.len() {
            assert(end[0] == s[s.len() - m]);
            if s.len() - m < n {
                assert(pending[s.len() - m] == marker[s.len() - m]);
            }
        } else {
            assert(end[m - 1] == front[m - 1]);
        }
    }
    assert(s.subrange(0, s.len() as int) =~= s);
    assert(s.subrange(s.len() as int, s.len() as int) =~= Seq::<u8>::empty());
}

} // verus!
