//! Recognition of bracketed pastes in a byte stream that arrives in arbitrary chunks.
use vstd::prelude::*;

verus! {

/// The bytes that open a bracketed paste: `ESC [ 2 0 0 ~`.
pub const PASTE_START: [u8; 6] = [0x1b, 0x5b, 0x32, 0x30, 0x30, 0x7e];

/// The bytes that close a bracketed paste: `ESC [ 2 0 1 ~`.
pub const PASTE_END: [u8; 6] = [0x1b, 0x5b, 0x32, 0x30, 0x31, 0x7e];

/// One piece of terminal input: ordinary bytes, or the payload of a complete paste.
#[derive(Debug, PartialEq, Eq)]
pub enum InputEvent {
    Bytes(Vec<u8>),
    Paste(Vec<u8>),
}

/// The mathematical counterpart of [`InputEvent`].
pub enum EventModel {
    Bytes(Seq<u8>),
    Paste(Seq<u8>),
}

impl View for InputEvent {
    type V = EventModel;

    open spec fn view(&self) -> EventModel {
        match self {
            InputEvent::Bytes(bytes) => EventModel::Bytes(bytes@),
            InputEvent::Paste(payload) => EventModel::Paste(payload@),
        }
    }
}

/// The models of a list of events.
pub open spec fn event_models(events: Seq<InputEvent>) -> Seq<EventModel> {
    events.map_values(|event: InputEvent| event@)
}

/// `pattern` stands in `s` at position `i`.
pub open spec fn occurs_at(s: Seq<u8>, pattern: Seq<u8>, i: int) -> bool {
    &&& 0 <= i
    &&& i + pattern.len() <= s.len()
    &&& s.subrange(i, i + pattern.len()) == pattern
}

/// `pattern` stands somewhere in `s`.
pub open spec fn occurs(s: Seq<u8>, pattern: Seq<u8>) -> bool {
    exists|i: int| occurs_at(s, pattern, i)
}

/// `i` is the leftmost position of `pattern` in `s`.
pub open spec fn first_at(s: Seq<u8>, pattern: Seq<u8>, i: int) -> bool {
    &&& occurs_at(s, pattern, i)
    &&& forall|j: int| 0 <= j < i ==> !occurs_at(s, pattern, j)
}

/// The leftmost position of `pattern` in `s`, if there is one.
pub open spec fn first_occurrence(s: Seq<u8>, pattern: Seq<u8>) -> Option<int> {
    if occurs(s, pattern) {
        Some(choose|i: int| first_at(s, pattern, i))
    } else {
        None
    }
}

/// The last `n` bytes of `s` are the first `n` bytes of `prefix`.
pub open spec fn overlaps_by(s: Seq<u8>, prefix: Seq<u8>, n: int) -> bool {
    &&& 0 <= n <= s.len()
    &&& n == 0 || n < prefix.len()
    &&& s.subrange(s.len() - n, s.len() as int) == prefix.subrange(0, n)
}

/// `n` is the length of the longest suffix of `s` that is a proper prefix of `prefix`.
pub open spec fn longest_overlap(s: Seq<u8>, prefix: Seq<u8>, n: int) -> bool {
    &&& overlaps_by(s, prefix, n)
    &&& forall|m: int| overlaps_by(s, prefix, m) ==> m <= n
}

/// The length of the longest suffix of `s` that is a proper prefix of `prefix`.
pub open spec fn overlap(s: Seq<u8>, prefix: Seq<u8>) -> int {
    choose|n: int| longest_overlap(s, prefix, n)
}

/// Positions of a pattern have a least one.
pub proof fn lemma_first_exists(s: Seq<u8>, pattern: Seq<u8>, i: int)
    requires
        occurs_at(s, pattern, i),
    ensures
        exists|k: int| first_at(s, pattern, k),
    decreases i,
{
    if exists|j: int| 0 <= j < i && occurs_at(s, pattern, j) {
        let j = choose|j: int| 0 <= j < i && occurs_at(s, pattern, j);
        lemma_first_exists(s, pattern, j);
    } else {
        assert(first_at(s, pattern, i));
    }
}

/// A leftmost position is the leftmost position.
pub proof fn lemma_first_unique(s: Seq<u8>, pattern: Seq<u8>, i: int)
    requires
        first_at(s, pattern, i),
    ensures
        first_occurrence(s, pattern) == Some(i),
{
    let k = choose|k: int| first_at(s, pattern, k);
    assert(first_at(s, pattern, k));
    assert(occurs_at(s, pattern, i));
    assert(!(k < i) && !(i < k));
}

/// What [`first_occurrence`] says of its result.
pub proof fn lemma_first_occurrence(s: Seq<u8>, pattern: Seq<u8>)
    ensures
        match first_occurrence(s, pattern) {
            Some(i) => first_at(s, pattern, i),
            None => forall|i: int| !occurs_at(s, pattern, i),
        },
{
    if occurs(s, pattern) {
        let i = choose|i: int| occurs_at(s, pattern, i);
        lemma_first_exists(s, pattern, i);
    }
}

/// A longest overlap is the longest overlap.
pub proof fn lemma_overlap_unique(s: Seq<u8>, prefix: Seq<u8>, n: int)
    requires
        longest_overlap(s, prefix, n),
    ensures
        overlap(s, prefix) == n,
{
    let k = overlap(s, prefix);
    assert(longest_overlap(s, prefix, k));
    assert(overlaps_by(s, prefix, k));
    assert(overlaps_by(s, prefix, n));
}

/// What [`overlap`] says of its result.
pub proof fn lemma_overlap(s: Seq<u8>, prefix: Seq<u8>)
    ensures
        longest_overlap(s, prefix, overlap(s, prefix)),
{
    assert(overlaps_by(s, prefix, 0)) by {
        assert(s.subrange(s.len() as int, s.len() as int) =~= prefix.subrange(0, 0));
    }
    lemma_overlap_below(s, prefix, s.len() as int);
}

/// An overlap of at most `bound` has a longest one.
proof fn lemma_overlap_below(s: Seq<u8>, prefix: Seq<u8>, bound: int)
    requires
        0 <= bound,
        overlaps_by(s, prefix, 0),
        forall|m: int| overlaps_by(s, prefix, m) ==> m <= bound,
    ensures
        exists|n: int| longest_overlap(s, prefix, n),
    decreases bound,
{
    if overlaps_by(s, prefix, bound) {
        assert(longest_overlap(s, prefix, bound));
    } else {
        lemma_overlap_below(s, prefix, bound - 1);
    }
}

/// The position of the first occurrence of `needle` in `haystack`. An empty needle is found
/// at the start.
pub fn find_subslice(haystack: &[u8], needle: &[u8]) -> (found: Option<usize>)
    ensures
        match found {
            Some(i) => first_occurrence(haystack@, needle@) == Some(i as int),
            None => first_occurrence(haystack@, needle@) is None,
        },
{
    let n: usize = needle.len();
    if haystack.len() < n {
        return None;
    }
    let last: usize = haystack.len() - n;
    let mut i: usize = 0;
    while i <= last
        invariant
            n == needle@.len(),
            last == haystack@.len() - n,
            i <= last + 1,
            forall|j: int| 0 <= j < i ==> !occurs_at(haystack@, needle@, j),
        decreases last + 1 - i,
    {
        if matches_at(haystack, needle, i) {
            proof {
                lemma_first_unique(haystack@, needle@, i as int);
            }
            return Some(i);
        }
        if i == last {
            return None;
        }
        i = i + 1;
    }
    None
}

/// Whether `needle` stands in `haystack` at position `at`.
fn matches_at(haystack: &[u8], needle: &[u8], at: usize) -> (found: bool)
    requires
        at + needle@.len() <= haystack@.len(),
    ensures
        found == occurs_at(haystack@, needle@, at as int),
{
    let n: usize = needle.len();
    let total: usize = haystack.len();
    let mut k: usize = 0;
    while k < n
        invariant
            n == needle@.len(),
            k <= n,
            total == haystack@.len(),
            at + n <= total,
            forall|j: int| 0 <= j < k ==> haystack@[at + j] == needle@[j],
        decreases n - k,
    {
        if haystack[at + k] != needle[k] {
            proof {
                let window = haystack@.subrange(at as int, at + n);
                assert(window[k as int] != needle@[k as int]);
            }
            return false;
        }
        k = k + 1;
    }
    proof {
        assert(haystack@.subrange(at as int, at + n) =~= needle@);
    }
    true
}

/// The length of the longest suffix of `bytes` that is a proper prefix of `prefix`.
pub fn longest_suffix_prefix(bytes: &[u8], prefix: &[u8]) -> (len: usize)
    ensures
        len == overlap(bytes@, prefix@),
        longest_overlap(bytes@, prefix@, len as int),
{
    let mut n: usize = if prefix.len() == 0 {
        0
    } else if bytes.len() < prefix.len() - 1 {
        bytes.len()
    } else {
        prefix.len() - 1
    };
    loop
        invariant
            n <= bytes@.len(),
            n == 0 || n < prefix@.len(),
            forall|m: int| overlaps_by(bytes@, prefix@, m) ==> m <= n,
        decreases n,
    {
        let head: &[u8] = vstd::slice::slice_subrange(prefix, 0, n);
        if matches_at(bytes, head, bytes.len() - n) {
            proof {
                assert(overlaps_by(bytes@, prefix@, n as int));
                lemma_overlap_unique(bytes@, prefix@, n as int);
            }
            return n;
        }
        proof {
            assert(!overlaps_by(bytes@, prefix@, n as int));
            if n == 0 {
                assert(bytes@.subrange(bytes@.len() as int, bytes@.len() as int) =~= head@);
            }
        }
        n = n - 1;
    }
}

/// The event for a run of ordinary bytes; an empty run has none.
pub open spec fn bytes_event(s: Seq<u8>) -> Seq<EventModel> {
    if s.len() > 0 {
        seq![EventModel::Bytes(s)]
    } else {
        seq![]
    }
}

/// A payload between its two markers.
pub open spec fn framed(payload: Seq<u8>) -> Seq<u8> {
    PASTE_START@ + payload + PASTE_END@
}

/// The input that a parser has read and not yet reported, marker included.
pub open spec fn held(pending: Seq<u8>, in_paste: bool) -> Seq<u8> {
    if in_paste {
        PASTE_START@ + pending
    } else {
        pending
    }
}

/// What a parser has made of a stretch of input: the events it reports, the bytes it still
/// holds back, and whether those belong to an open paste.
pub ghost struct Scan {
    pub events: Seq<EventModel>,
    pub pending: Seq<u8>,
    pub in_paste: bool,
}

/// How `s` divides into events when it is read inside (`in_paste`) or outside a paste.
///
/// Inside a paste everything up to the first closing marker is the payload; without a marker
/// all of it is held back. Outside, everything up to the first opening marker is ordinary
/// input; without a marker all of it is, save the longest suffix that a marker could start
/// with, which is held back.
pub open spec fn scan(s: Seq<u8>, in_paste: bool) -> Scan
    decreases s.len(),
{
    let marker = if in_paste {
        PASTE_END@
    } else {
        PASTE_START@
    };
    match first_occurrence(s, marker) {
        Some(i) => {
            let rest = s.subrange(i + marker.len(), s.len() as int);
            proof {
                lemma_first_occurrence(s, marker);
            }
            let tail = scan(rest, !in_paste);
            let head = s.subrange(0, i);
            Scan {
                events: (if in_paste {
                    seq![EventModel::Paste(head)]
                } else {
                    bytes_event(head)
                }) + tail.events,
                ..tail
            }
        },
        None => if in_paste {
            Scan { events: seq![], pending: s, in_paste: true }
        } else {
            let emit = s.len() - overlap(s, PASTE_START@);
            Scan {
                events: bytes_event(s.subrange(0, emit)),
                pending: s.subrange(emit, s.len() as int),
                in_paste: false,
            }
        },
    }
}

/// What holds of a parser between two chunks: in an open paste no closing marker has been
/// read, and outside a paste only the beginning of an opening marker is held back.
pub open spec fn settled(pending: Seq<u8>, in_paste: bool) -> bool {
    if in_paste {
        !occurs(pending, PASTE_END@)
    } else {
        &&& pending.len() < PASTE_START@.len()
        &&& pending == PASTE_START@.subrange(0, pending.len() as int)
    }
}

/// What a parser leaves behind is settled.
pub proof fn lemma_scan_settled(s: Seq<u8>, in_paste: bool)
    ensures
        settled(scan(s, in_paste).pending, scan(s, in_paste).in_paste),
    decreases s.len(),
{
    let marker = if in_paste {
        PASTE_END@
    } else {
        PASTE_START@
    };
    lemma_first_occurrence(s, marker);
    match first_occurrence(s, marker) {
        Some(i) => {
            lemma_scan_settled(s.subrange(i + marker.len(), s.len() as int), !in_paste);
        },
        None => {
            if !in_paste {
                lemma_overlap(s, PASTE_START@);
            }
        },
    }
}

/// A streaming recogniser of bracketed pastes.
pub struct BracketedPasteParser {
    buffer: Vec<u8>,
    in_paste: bool,
}

impl BracketedPasteParser {
    /// The bytes that are held back until more input decides what they are.
    pub closed spec fn pending(&self) -> Seq<u8> {
        self.buffer@
    }

    /// Whether an opening marker has been read whose closing marker has not.
    pub closed spec fn in_paste(&self) -> bool {
        self.in_paste
    }

    /// What every parser satisfies between two calls.
    pub open spec fn wf(&self) -> bool {
        settled(self.pending(), self.in_paste())
    }

    /// Takes the next chunk of input and reports every event that it completes.
    pub fn feed(&mut self, input: &[u8]) -> (events: Vec<InputEvent>)
        ensures
            ({
                let result = scan(old(self).pending() + input@, old(self).in_paste());
                &&& event_models(events@) == result.events
                &&& final(self).pending() == result.pending
                &&& final(self).in_paste() == result.in_paste
            }),
            final(self).wf(),
    {
        proof {
            lemma_scan_settled(old(self).pending() + input@, old(self).in_paste());
        }
        self.buffer.extend_from_slice(input);
        let mut events: Vec<InputEvent> = Vec::new();
        let ghost whole = scan(old(self).pending() + input@, old(self).in_paste());
        assert(self.buffer@ =~= old(self).pending() + input@);
        assert(event_models(events@) =~= seq![]);
        assert(seq![] + whole.events =~= whole.events);
        loop
            invariant
                whole == scan(old(self).pending() + input@, old(self).in_paste()),
                settled(whole.pending, whole.in_paste),
                ({
                    let rest = scan(self.buffer@, self.in_paste);
                    &&& whole.events == event_models(events@) + rest.events
                    &&& whole.pending == rest.pending
                    &&& whole.in_paste == rest.in_paste
                }),
            decreases self.buffer@.len(),
        {
            let ghost before = self.buffer@;
            let ghost reported = event_models(events@);
            let ghost rest = scan(self.buffer@, self.in_paste);
            if self.in_paste {
                proof {
                    lemma_first_occurrence(before, PASTE_END@);
                }
                match find_subslice(&self.buffer, &PASTE_END) {
                    Some(end) => {
                        let payload: Vec<u8> = split_front(&mut self.buffer, end, PASTE_END.len());
                        self.in_paste = false;
                        events.push(InputEvent::Paste(payload));
                        proof {
                            let tail = scan(self.buffer@, false);
                            assert(rest.events =~= seq![EventModel::Paste(payload@)] + tail.events);
                            assert(event_models(events@) =~= reported.push(EventModel::Paste(payload@)));
                            assert(whole.events =~= event_models(events@) + tail.events);
                        }
                    },
                    None => {
                        assert(event_models(events@) + rest.events =~= event_models(events@));
                        return events;
                    },
                }
            } else {
                proof {
                    lemma_first_occurrence(before, PASTE_START@);
                }
                match find_subslice(&self.buffer, &PASTE_START) {
                    Some(start) => {
                        let plain: Vec<u8> = split_front(&mut self.buffer, start, PASTE_START.len());
                        self.in_paste = true;
                        let ghost tail = scan(self.buffer@, true);
                        let ghost front = plain@;
                        assert(rest.events =~= bytes_event(front) + tail.events);
                        if start > 0 {
                            events.push(InputEvent::Bytes(plain));
                            assert(event_models(events@) =~= reported.push(EventModel::Bytes(front)));
                        }
                        assert(whole.events =~= event_models(events@) + tail.events);
                    },
                    None => {
                        let keep: usize = longest_suffix_prefix(&self.buffer, &PASTE_START);
                        let emit: usize = self.buffer.len() - keep;
                        if emit > 0 {
                            let plain: Vec<u8> = split_front(&mut self.buffer, emit, 0);
                            let ghost front = plain@;
                            events.push(InputEvent::Bytes(plain));
                            assert(event_models(events@) =~= reported.push(EventModel::Bytes(front)));
                        } else {
                            assert(before.subrange(0, before.len() as int) =~= before);
                        }
                        assert(whole.events =~= event_models(events@));
                        return events;
                    },
                }
            }
        }
    }

    /// Ends the input: reports what was held back as ordinary bytes, with the opening marker
    /// of an unfinished paste in front, and starts over.
    pub fn finish(&mut self) -> (events: Vec<InputEvent>)
        ensures
            event_models(events@) == bytes_event(held(old(self).pending(), old(self).in_paste())),
            final(self).pending() == Seq::<u8>::empty(),
            !final(self).in_paste(),
            final(self).wf(),
    {
        let mut events: Vec<InputEvent> = Vec::new();
        let mut bytes: Vec<u8> = Vec::new();
        if self.in_paste {
            bytes.extend_from_slice(&PASTE_START);
        }
        bytes.append(&mut self.buffer);
        self.in_paste = false;
        proof {
            assert(bytes@ =~= held(old(self).pending(), old(self).in_paste()));
            assert(self.buffer@ =~= PASTE_START@.subrange(0, 0));
        }
        let ghost model = bytes@;
        if bytes.len() > 0 {
            events.push(InputEvent::Bytes(bytes));
        }
        assert(event_models(events@) =~= bytes_event(model));
        events
    }

    /// Gives up waiting for the rest of an opening marker: what is held back outside a paste
    /// is reported as ordinary bytes. An open paste is left alone.
    pub fn flush_ambiguous_prefix(&mut self) -> (events: Vec<InputEvent>)
        ensures
            old(self).in_paste() ==> {
                &&& event_models(events@) == Seq::<EventModel>::empty()
                &&& final(self).pending() == old(self).pending()
            },
            !old(self).in_paste() ==> {
                &&& event_models(events@) == bytes_event(old(self).pending())
                &&& final(self).pending() == Seq::<u8>::empty()
            },
            final(self).in_paste() == old(self).in_paste(),
            old(self).wf() ==> final(self).wf(),
    {
        let mut events: Vec<InputEvent> = Vec::new();
        if !self.in_paste {
            let mut bytes: Vec<u8> = Vec::new();
            bytes.append(&mut self.buffer);
            proof {
                assert(bytes@ =~= old(self).pending());
                assert(self.buffer@ =~= PASTE_START@.subrange(0, 0));
            }
            if bytes.len() > 0 {
                events.push(InputEvent::Bytes(bytes));
            }
            assert(event_models(events@) =~= bytes_event(old(self).pending()));
        } else {
            assert(event_models(events@) =~= Seq::<EventModel>::empty());
        }
        events
    }
}

impl Default for BracketedPasteParser {
    /// A parser at the start of its input.
    fn default() -> (parser: Self)
        ensures
            parser.pending() == Seq::<u8>::empty(),
            !parser.in_paste(),
            parser.wf(),
    {
        let parser = BracketedPasteParser { buffer: Vec::new(), in_paste: false };
        assert(parser.buffer@ =~= PASTE_START@.subrange(0, 0));
        parser
    }
}

/// Appends `payload` to `writer` as one bracketed paste.
pub fn write_bracketed_paste(writer: &mut Vec<u8>, payload: &[u8])
    ensures
        final(writer)@ == old(writer)@ + framed(payload@),
{
    writer.extend_from_slice(&PASTE_START);
    writer.extend_from_slice(payload);
    writer.extend_from_slice(&PASTE_END);
    assert(writer@ =~= old(writer)@ + framed(payload@));
}

/// Cuts the first `head` bytes off `buffer` and returns them; the `gap` bytes behind them are
/// dropped.
fn split_front(buffer: &mut Vec<u8>, head: usize, gap: usize) -> (front: Vec<u8>)
    requires
        head + gap <= old(buffer)@.len(),
    ensures
        front@ == old(buffer)@.subrange(0, head as int),
        final(buffer)@ == old(buffer)@.subrange(head + gap, old(buffer)@.len() as int),
{
    assert(head + gap <= buffer.len());
    let mut rest: Vec<u8> = buffer.split_off(head + gap);
    buffer.truncate(head);
    std::mem::swap(buffer, &mut rest);
    assert(rest@ =~= old(buffer)@.subrange(0, head as int));
    rest
}

} // verus!
