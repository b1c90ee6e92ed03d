use agentdrop::paste::{
    find_subslice, longest_suffix_prefix, write_bracketed_paste, BracketedPasteParser, InputEvent,
};

#[test]
fn forwards_normal_input() {
    let mut parser = BracketedPasteParser::default();
    assert_eq!(
        parser.feed(b"hello"),
        vec![InputEvent::Bytes(b"hello".to_vec())]
    );
}

#[test]
fn forwards_control_keys_immediately() {
    let mut parser = BracketedPasteParser::default();
    for byte in [0x01_u8, 0x05_u8, 0x12_u8] {
        assert_eq!(
            parser.feed(&[byte]),
            vec![InputEvent::Bytes(vec![byte])],
            "control byte {byte:#04x} must not be buffered"
        );
    }
}

#[test]
fn forwards_arrow_sequences_once_they_diverge_from_paste_prefix() {
    for arrow in [b'A', b'B', b'C', b'D'] {
        let mut parser = BracketedPasteParser::default();
        assert!(parser.feed(b"\x1b").is_empty());
        assert!(parser.feed(b"[").is_empty());
        assert_eq!(
            parser.feed(&[arrow]),
            vec![InputEvent::Bytes(vec![0x1b, b'[', arrow])]
        );
    }
}

#[test]
fn parses_paste_across_chunks() {
    let mut parser = BracketedPasteParser::default();
    assert_eq!(parser.feed(b"abc\x1b[20"), vec![InputEvent::Bytes(b"abc".to_vec())]);
    assert!(parser.feed(b"0~C:\\Users\\me\\shot").is_empty());
    assert_eq!(
        parser.feed(b".png\x1b[201~xyz"),
        vec![
            InputEvent::Paste(b"C:\\Users\\me\\shot.png".to_vec()),
            InputEvent::Bytes(b"xyz".to_vec())
        ]
    );
}

#[test]
fn preserves_unfinished_paste_on_eof() {
    let mut parser = BracketedPasteParser::default();
    assert!(parser.feed(b"\x1b[200~unfinished").is_empty());
    assert_eq!(
        parser.finish(),
        vec![InputEvent::Bytes(b"\x1b[200~unfinished".to_vec())]
    );
}

#[test]
fn finish_starts_over() {
    let mut parser = BracketedPasteParser::default();
    assert!(parser.finish().is_empty());
    assert!(parser.feed(b"\x1b[200~open").is_empty());
    parser.finish();
    assert_eq!(parser.feed(b"plain"), vec![InputEvent::Bytes(b"plain".to_vec())]);
    assert_eq!(parser.feed(b"\x1b[2"), vec![]);
    assert_eq!(parser.finish(), vec![InputEvent::Bytes(b"\x1b[2".to_vec())]);
}

#[test]
fn a_lone_escape_is_released_by_a_flush() {
    let mut parser = BracketedPasteParser::default();
    assert!(parser.feed(b"\x1b").is_empty());
    assert_eq!(
        parser.flush_ambiguous_prefix(),
        vec![InputEvent::Bytes(vec![0x1b])]
    );
    assert!(parser.flush_ambiguous_prefix().is_empty());
}

#[test]
fn a_flush_leaves_an_open_paste_alone() {
    let mut parser = BracketedPasteParser::default();
    assert!(parser.feed(b"\x1b[200~half").is_empty());
    assert!(parser.flush_ambiguous_prefix().is_empty());
    assert_eq!(
        parser.feed(b" done\x1b[201~"),
        vec![InputEvent::Paste(b"half done".to_vec())]
    );
}

#[test]
fn a_written_paste_is_read_back() {
    let mut wire = b"before".to_vec();
    write_bracketed_paste(&mut wire, b"payload \x1b[20");
    assert_eq!(wire, b"before\x1b[200~payload \x1b[20\x1b[201~".to_vec());
    let mut parser = BracketedPasteParser::default();
    assert_eq!(
        parser.feed(&wire),
        vec![
            InputEvent::Bytes(b"before".to_vec()),
            InputEvent::Paste(b"payload \x1b[20".to_vec())
        ]
    );
    assert!(parser.finish().is_empty());
}

/// Events with runs of ordinary bytes joined.
fn joined(events: Vec<InputEvent>) -> Vec<InputEvent> {
    let mut result: Vec<InputEvent> = Vec::new();
    for event in events {
        match (result.last_mut(), event) {
            (Some(InputEvent::Bytes(run)), InputEvent::Bytes(bytes)) => run.extend(bytes),
            (_, event) => result.push(event),
        }
    }
    result
}

#[test]
fn chunks_do_not_matter() {
    let input = b"\x1b[Aab\x1b\x1b[200~one\x1b[200~\x1b[201~mid\x1b[200~\x1b[201~\x1b[201~tail\x1b[20";
    let mut whole = BracketedPasteParser::default();
    let mut expected = whole.feed(input);
    expected.extend(whole.finish());
    let expected = joined(expected);
    for size in 1..input.len() {
        let mut parser = BracketedPasteParser::default();
        let mut events = Vec::new();
        for chunk in input.chunks(size) {
            events.extend(parser.feed(chunk));
        }
        events.extend(parser.finish());
        assert_eq!(joined(events), expected, "chunks of {size}");
    }
}

#[test]
fn nothing_is_lost() {
    let input = b"x\x1b[200~p\x1b[201~\x1b[200~open";
    let mut parser = BracketedPasteParser::default();
    let mut events = parser.feed(input);
    events.extend(parser.finish());
    let mut wire = Vec::new();
    for event in events {
        match event {
            InputEvent::Bytes(bytes) => wire.extend(bytes),
            InputEvent::Paste(payload) => write_bracketed_paste(&mut wire, &payload),
        }
    }
    assert_eq!(wire, input.to_vec());
}

#[test]
fn searches_at_the_edges() {
    assert_eq!(find_subslice(b"abcabc", b"bc"), Some(1));
    assert_eq!(find_subslice(b"abc", b""), Some(0));
    assert_eq!(find_subslice(b"", b""), Some(0));
    assert_eq!(find_subslice(b"ab", b"abc"), None);
    assert_eq!(find_subslice(b"xabc", b"abc"), Some(1));
    assert_eq!(longest_suffix_prefix(b"xxab", b"abc"), 2);
    assert_eq!(longest_suffix_prefix(b"abc", b"abc"), 0);
    assert_eq!(longest_suffix_prefix(b"aa", b"aaa"), 2);
    assert_eq!(longest_suffix_prefix(b"abc", b""), 0);
    assert_eq!(longest_suffix_prefix(b"", b"abc"), 0);
}
