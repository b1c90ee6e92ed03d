//! What the parser and the forwarding of terminal input make of a stream, in terms of the bytes
//! that a terminal sends.
use vstd::prelude::*;
use crate::laws::{arrived, forwarded};
use crate::paste::{
    bytes_event, event_models, first_occurrence, framed, held, lemma_first_occurrence,
    lemma_overlap, lemma_scan_settled, occurs, occurs_at, overlap, overlaps_by, scan, EventModel,
    InputEvent, PASTE_END, PASTE_START,
};
use crate::paste_laws::{
    items, items_of, law_chunks_do_not_matter, law_paste_round_trip, lemma_items_concat,
    lemma_single, Item,
};
use crate::proxy::{forwarding_step, InputSignal, SignalModel};

verus! {

/// `ESC [ 2 0 0 ~`, with which a terminal opens a paste.
pub open spec fn opening() -> Seq<u8> {
    seq![0x1bu8, 0x5bu8, 0x32u8, 0x30u8, 0x30u8, 0x7eu8]
}

/// `ESC [ 2 0 1 ~`, with which a terminal closes a paste.
pub open spec fn closing() -> Seq<u8> {
    seq![0x1bu8, 0x5bu8, 0x32u8, 0x30u8, 0x31u8, 0x7eu8]
}

/// `pattern` stands in `s` at `i`, byte for byte.
pub open spec fn stands_at(pattern: Seq<u8>, s: Seq<u8>, i: int) -> bool {
    &&& 0 <= i <= s.len() - pattern.len()
    &&& forall|k: int| 0 <= k < pattern.len() ==> s[i + k] == #[trigger] pattern[k]
}

/// `pattern` stands somewhere in `s`.
pub open spec fn stands_in(pattern: Seq<u8>, s: Seq<u8>) -> bool {
    exists|i: int| stands_at(pattern, s, i)
}

/// Standing at a place is a matter of bytes.
proof fn lemma_stands_at(pattern: Seq<u8>, s: Seq<u8>, i: int)
    ensures
        stands_at(pattern, s, i) == occurs_at(s, pattern, i),
{
    if stands_at(pattern, s, i) {
        assert(s.subrange(i, i + pattern.len()) =~= pattern);
    }
    if occurs_at(s, pattern, i) {
        assert forall|k: int| 0 <= k < pattern.len() implies s[i + k] == #[trigger] pattern[k] by {
            assert(s.subrange(i, i + pattern.len())[k] == s[i + k]);
        }
    }
}

/// Standing somewhere is a matter of bytes.
proof fn lemma_stands_in(pattern: Seq<u8>, s: Seq<u8>)
    ensures
        stands_in(pattern, s) == occurs(s, pattern),
{
    if stands_in(pattern, s) {
        let i = choose|i: int| stands_at(pattern, s, i);
        lemma_stands_at(pattern, s, i);
    }
    if occurs(s, pattern) {
        let i = choose|i: int| occurs_at(s, pattern, i);
        lemma_stands_at(pattern, s, i);
    }
}

/// The markers are those of the terminal.
proof fn lemma_markers()
    ensures
        PASTE_START@ == opening(),
        PASTE_END@ == closing(),
{
    assert(PASTE_START@ =~= opening());
    assert(PASTE_END@ =~= closing());
}

/// A search finds the leftmost place at which the pattern stands, and none only if it stands
/// nowhere.
pub proof fn law_search_finds_the_first(s: Seq<u8>, pattern: Seq<u8>)
    ensures
        match first_occurrence(s, pattern) {
            Some(i) => stands_at(pattern, s, i) && forall|j: int|
                0 <= j < i ==> !stands_at(pattern, s, j),
            None => !stands_in(pattern, s),
        },
{
    lemma_first_occurrence(s, pattern);
    lemma_stands_in(pattern, s);
    match first_occurrence(s, pattern) {
        Some(i) => {
            lemma_stands_at(pattern, s, i);
            assert forall|j: int| 0 <= j < i implies !stands_at(pattern, s, j) by {
                lemma_stands_at(pattern, s, j);
            }
        },
        None => {},
    }
}

/// What could still become a pattern is the longest end of the input that the pattern begins
/// with, short of the whole pattern.
pub proof fn law_overlap_is_the_longest(s: Seq<u8>, prefix: Seq<u8>)
    ensures
        ({
            let n = overlap(s, prefix);
            &&& 0 <= n <= s.len()
            &&& n == 0 || n < prefix.len()
            &&& stands_at(prefix.subrange(0, n), s, s.len() - n)
            &&& forall|m: int|
                n < m <= s.len() && m < prefix.len() ==> !stands_at(
                    #[trigger] prefix.subrange(0, m),
                    s,
                    s.len() - m,
                )
        }),
{
    lemma_overlap(s, prefix);
    let n = overlap(s, prefix);
    assert(overlaps_by(s, prefix, n));
    lemma_stands_at(prefix.subrange(0, n), s, s.len() - n);
    assert forall|m: int| n < m <= s.len() && m < prefix.len() implies !stands_at(
        #[trigger] prefix.subrange(0, m),
        s,
        s.len() - m,
    ) by {
        lemma_stands_at(prefix.subrange(0, m), s, s.len() - m);
        assert(!overlaps_by(s, prefix, m));
    }
}

/// A paste is written as its payload between the terminal's two markers.
pub proof fn law_frame_is_what_a_terminal_sends(payload: Seq<u8>)
    ensures
        framed(payload) == opening() + payload + closing(),
{
    lemma_markers();
}

/// What a parser holds back comes out as it went in: with the opening marker in front where a
/// paste is open, and as one run of bytes unless there is nothing.
pub proof fn law_held_input_comes_out_as_it_went_in(pending: Seq<u8>)
    ensures
        held(pending, true) == opening() + pending,
        held(pending, false) == pending,
        pending.len() > 0 ==> bytes_event(pending) == seq![EventModel::Bytes(pending)],
        pending.len() == 0 ==> bytes_event(pending) == Seq::<EventModel>::empty(),
{
    lemma_markers();
}

/// Events and signals are what they hold.
pub proof fn law_events_are_what_they_hold(
    bytes: Vec<u8>,
    events: Seq<InputEvent>,
)
    ensures
        InputEvent::Bytes(bytes)@ == EventModel::Bytes(bytes@),
        InputEvent::Paste(bytes)@ == EventModel::Paste(bytes@),
        InputSignal::Chunk(bytes)@ == SignalModel::Chunk(bytes@),
        InputSignal::Idle@ == SignalModel::Idle,
        InputSignal::Closed@ == SignalModel::Closed,
        event_models(events).len() == events.len(),
        forall|i: int| 0 <= i < events.len() ==> #[trigger] event_models(events)[i] == events[i]@,
{
}

/// What a list of events looks like when bytes and pastes are told apart as far as they can be:
/// no run of bytes is empty, holds an opening marker or stands next to another, and no paste
/// holds a closing marker.
pub open spec fn told_apart(events: Seq<EventModel>) -> bool {
    &&& forall|i: int|
        0 <= i < events.len() ==> match #[trigger] events[i] {
            EventModel::Bytes(bytes) => bytes.len() > 0 && !stands_in(opening(), bytes),
            EventModel::Paste(payload) => !stands_in(closing(), payload),
        }
    &&& forall|i: int, j: int|
        0 <= i && j == i + 1 && j < events.len() ==> !(#[trigger] events[i] is Bytes
            && #[trigger] events[j] is Bytes)
}

/// Whatever is read, bytes and pastes are told apart. Inside a paste the first event is that
/// paste. What is held back holds no closing marker in an open paste, and is no more than the
/// beginning of an opening marker outside. As nothing is lost, this leaves one way to divide the
/// input.
pub proof fn law_pastes_are_told_from_bytes(s: Seq<u8>, in_paste: bool)
    ensures
        ({
            let result = scan(s, in_paste);
            &&& told_apart(result.events)
            &&& in_paste && result.events.len() > 0 ==> result.events[0] is Paste
            &&& result.in_paste ==> !stands_in(closing(), result.pending)
            &&& !result.in_paste ==> result.pending.len() < 6 && result.pending
                == opening().subrange(0, result.pending.len() as int)
        }),
    decreases s.len(),
{
    let result = scan(s, in_paste);
    let marker = if in_paste {
        PASTE_END@
    } else {
        PASTE_START@
    };
    lemma_markers();
    lemma_first_occurrence(s, marker);
    lemma_scan_settled(s, in_paste);
    lemma_stands_in(closing(), result.pending);
    match first_occurrence(s, marker) {
        Some(i) => {
            let rest = s.subrange(i + marker.len(), s.len() as int);
            let head = s.subrange(0, i);
            let tail = scan(rest, !in_paste);
            law_pastes_are_told_from_bytes(rest, !in_paste);
            lemma_stands_in(marker, head);
            assert(!occurs(head, marker)) by {
                if occurs(head, marker) {
                    let j = choose|j: int| occurs_at(head, marker, j);
                    assert(s.subrange(j, j + marker.len()) =~= head.subrange(j, j + marker.len()));
                    assert(occurs_at(s, marker, j));
                }
            }
            let first = if in_paste {
                seq![EventModel::Paste(head)]
            } else {
                bytes_event(head)
            };
            assert(result.events == first + tail.events);
            lemma_told_apart(first, tail.events);
        },
        None => {
            if !in_paste {
                lemma_overlap(s, marker);
                let head = s.subrange(0, s.len() - overlap(s, marker));
                lemma_stands_in(marker, head);
                if occurs(head, marker) {
                    let j = choose|j: int| occurs_at(head, marker, j);
                    assert(s.subrange(j, j + marker.len()) =~= head.subrange(j, j + marker.len()));
                    assert(occurs_at(s, marker, j));
                }
            }
        },
    }
}

/// One event in front of others.
proof fn lemma_told_apart(first: Seq<EventModel>, tail: Seq<EventModel>)
    requires
        first.len() <= 1,
        told_apart(first),
        told_apart(tail),
        first.len() == 1 && first[0] is Bytes && tail.len() > 0 ==> tail[0] is Paste,
    ensures
        told_apart(first + tail),
{
    let all = first + tail;
    assert forall|i: int| 0 <= i < all.len() implies match #[trigger] all[i] {
        EventModel::Bytes(bytes) => bytes.len() > 0 && !stands_in(opening(), bytes),
        EventModel::Paste(payload) => !stands_in(closing(), payload),
    } by {
        if i < first.len() {
            assert(all[i] == first[i]);
        } else {
            assert(all[i] == tail[i - first.len()]);
        }
    }
    assert forall|i: int, j: int| 0 <= i && j == i + 1 && j < all.len() implies !(
    #[trigger] all[i] is Bytes && #[trigger] all[j] is Bytes) by {
        assert(all[j] == tail[j - first.len()]);
        if i >= first.len() {
            assert(all[i] == tail[i - first.len()]);
        }
    }
}

/// A paste that the terminal sends in one piece is reported as that paste and nothing else.
pub proof fn law_whole_paste_is_reported_as_a_paste(payload: Seq<u8>)
    requires
        !stands_in(closing(), payload),
    ensures
        ({
            let step = forwarding_step(
                seq![],
                false,
                SignalModel::Chunk(opening() + payload + closing()),
            );
            &&& step.events == seq![EventModel::Paste(payload)]
            &&& step.pending.len() == 0
            &&& !step.in_paste
        }),
{
    lemma_markers();
    lemma_stands_in(closing(), payload);
    law_paste_round_trip(payload);
    let input = opening() + payload + closing();
    assert(Seq::<u8>::empty() + input =~= framed(payload));
}

/// What is read after other input goes on where that ended: one more chunk reports just what the
/// parser finds in it, with what was held back in front.
pub proof fn law_chunk_is_parsed(pending: Seq<u8>, in_paste: bool, bytes: Seq<u8>)
    ensures
        ({
            let step = forwarding_step(pending, in_paste, SignalModel::Chunk(bytes));
            let found = scan(pending + bytes, in_paste);
            &&& step.events == found.events
            &&& step.pending == found.pending
            &&& step.in_paste == found.in_paste
            &&& told_apart(step.events)
        }),
{
    law_pastes_are_told_from_bytes(pending + bytes, in_paste);
}

/// However the input is cut into reads, the same bytes and the same pastes are reported as for
/// the whole input read at once, and the same is held back.
pub proof fn law_reads_may_be_cut_anywhere(signals: Seq<SignalModel>)
    requires
        forall|i: int| 0 <= i < signals.len() ==> #[trigger] signals[i] is Chunk,
    ensures
        ({
            let (events, pending, in_paste) = forwarded(signals);
            let whole = scan(arrived(signals), false);
            &&& items(events) == items(whole.events)
            &&& pending == whole.pending
            &&& in_paste == whole.in_paste
        }),
    decreases signals.len(),
{
    if signals.len() == 0 {
        lemma_nothing_read();
    } else {
        let before = signals.drop_last();
        assert forall|i: int| 0 <= i < before.len() implies #[trigger] before[i] is Chunk by {
            assert(signals[i] is Chunk);
        }
        law_reads_may_be_cut_anywhere(before);
        assert(signals[signals.len() - 1] is Chunk);
        let bytes = signals.last()->Chunk_0;
        law_chunks_do_not_matter(arrived(before), bytes, false);
        let (events, pending, in_paste) = forwarded(before);
        let step = forwarding_step(pending, in_paste, signals.last());
        lemma_items_concat(events, step.events);
    }
}

/// Nothing is made of nothing.
proof fn lemma_nothing_read()
    ensures
        scan(seq![], false).events == Seq::<EventModel>::empty(),
        scan(seq![], false).pending == Seq::<u8>::empty(),
        !scan(seq![], false).in_paste,
{
    crate::paste_laws::law_plain_input_passes_at_once(seq![]);
}

/// A paste is found however its bytes are cut into reads: what is reported is that paste and no
/// byte beside it.
pub proof fn law_cut_paste_is_reported_as_a_paste(signals: Seq<SignalModel>, payload: Seq<u8>)
    requires
        forall|i: int| 0 <= i < signals.len() ==> #[trigger] signals[i] is Chunk,
        arrived(signals) == opening() + payload + closing(),
        !stands_in(closing(), payload),
    ensures
        items(forwarded(signals).0) == seq![Item::Paste(payload)],
{
    law_reads_may_be_cut_anywhere(signals);
    lemma_markers();
    lemma_stands_in(closing(), payload);
    law_paste_round_trip(payload);
    lemma_single(EventModel::Paste(payload));
    assert(items_of(EventModel::Paste(payload)) == seq![Item::Paste(payload)]);
}

/// A pause in an open paste changes nothing; outside, it releases what is held back as bytes.
/// The end of the input releases everything as bytes, with the marker of an open paste.
pub proof fn law_pauses_release_what_is_held(pending: Seq<u8>)
    ensures
        ({
            let step = forwarding_step(pending, true, SignalModel::Idle);
            step.events.len() == 0 && step.pending == pending && step.in_paste
        }),
        ({
            let step = forwarding_step(pending, false, SignalModel::Idle);
            &&& pending.len() > 0 ==> step.events == seq![EventModel::Bytes(pending)]
            &&& pending.len() == 0 ==> step.events.len() == 0
            &&& step.pending.len() == 0
            &&& !step.in_paste
        }),
        ({
            let step = forwarding_step(pending, true, SignalModel::Closed);
            &&& step.events == seq![EventModel::Bytes(opening() + pending)]
            &&& step.pending.len() == 0
            &&& !step.in_paste
        }),
        ({
            let step = forwarding_step(pending, false, SignalModel::Closed);
            &&& pending.len() > 0 ==> step.events == seq![EventModel::Bytes(pending)]
            &&& pending.len() == 0 ==> step.events.len() == 0
            &&& step.pending.len() == 0
            &&& !step.in_paste
        }),
{
    lemma_markers();
}

} // verus!
