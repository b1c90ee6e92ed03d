//! What calls of the parser, of the forwarding and of the decisions about pastes give, stated of
//! their arguments and results.
use vstd::prelude::*;
use vstd::utf8::{encode_utf8, valid_utf8};
use crate::argv::{argument_models, Argument, ArgumentModel};
use crate::bridge::{bridge_error_text, BridgeError};
use crate::laws::commands::{begins_with_given, law_agent_runs_as_given};
use crate::laws::drops::{
    as_pasted, is_plain_paste, is_windows_path, law_other_input_is_left_alone,
    law_paste_is_taken_for_what_it_says, law_pasted_path_is_acted_on,
    law_quotes_come_off_in_pairs, law_several_lines_are_left_alone,
    law_windows_paths_are_recognised,
};
use crate::laws::lemma_step_loses_nothing;
use crate::laws::streams::{
    closing, law_chunk_is_parsed, law_events_are_what_they_hold,
    law_frame_is_what_a_terminal_sends, law_held_input_comes_out_as_it_went_in,
    law_overlap_is_the_longest, law_pastes_are_told_from_bytes, law_pauses_release_what_is_held,
    law_search_finds_the_first, law_whole_paste_is_reported_as_a_paste, opening, stands_at,
    stands_in, told_apart,
};
use crate::laws::texts::law_replacement_is_the_remote_path;
use crate::paste::{
    event_models, find_subslice, longest_suffix_prefix, scan, write_bracketed_paste,
    BracketedPasteParser, EventModel, InputEvent,
};
use crate::paste_laws::{law_nothing_is_lost, replay};
use crate::proxy::{
    after_lookup, after_upload, agent_argv, agent_command, agent_exit_code, forward_event,
    forward_events, initial_size, input_proxy_step, is_windows_absolute_path,
    local_path_from_paste, replacement_paste, resize, strip_matching_quotes, Delivery,
    DroppedFile, ForwardAction, InputSignal, PasteTarget,
};
use crate::text::lossy_chars;

verus! {

/// What a parser has read and not reported, as the terminal sent it.
pub open spec fn unreported(parser: BracketedPasteParser) -> Seq<u8> {
    if parser.in_paste() {
        opening() + parser.pending()
    } else {
        parser.pending()
    }
}

/// A paste that is read from the terminal in one piece is reported as a paste: exactly one event,
/// with the payload that stood between the markers, and nothing is held back.
pub proof fn law_read_paste_is_reported(
    parser: &mut BracketedPasteParser,
    chunk: Vec<u8>,
    payload: Seq<u8>,
    result: (Vec<InputEvent>, bool),
)
    requires
        call_ensures(input_proxy_step, (parser, InputSignal::Chunk(chunk)), result),
        unreported(*old(parser)).len() == 0,
        chunk@ == opening() + payload + closing(),
        !stands_in(closing(), payload),
    ensures
        result.0@.len() == 1,
        result.0@[0] matches InputEvent::Paste(found) && found@ == payload,
        result.1,
        unreported(*final(parser)).len() == 0,
{
    law_whole_paste_is_reported_as_a_paste(payload);
    assert(old(parser).pending() =~= seq![]);
    law_events_are_what_they_hold(chunk, result.0@);
    assert(event_models(result.0@)[0] == result.0@[0]@);
}

/// A step reports every event as what it is. After a chunk bytes and pastes are told apart; what
/// is reported and what is still held back are together what was held back before and the chunk.
/// Only the end of the input ends the forwarding.
pub proof fn law_step_tells_pastes_from_bytes(
    parser: &mut BracketedPasteParser,
    chunk: Vec<u8>,
    result: (Vec<InputEvent>, bool),
)
    requires
        call_ensures(input_proxy_step, (parser, InputSignal::Chunk(chunk)), result),
    ensures
        ({
            let found = scan(old(parser).pending() + chunk@, old(parser).in_paste());
            &&& event_models(result.0@) == found.events
            &&& final(parser).pending() == found.pending
            &&& final(parser).in_paste() == found.in_paste
        }),
        told_apart(event_models(result.0@)),
        replay(event_models(result.0@)) + unreported(*final(parser)) == unreported(*old(parser))
            + chunk@,
        old(parser).in_paste() && result.0@.len() > 0 ==> result.0@[0] is Paste,
        final(parser).in_paste() ==> !stands_in(closing(), final(parser).pending()),
        !final(parser).in_paste() ==> final(parser).pending().len() < 6 && final(parser).pending()
            == opening().subrange(0, final(parser).pending().len() as int),
        result.1,
{
    let pending = old(parser).pending();
    let in_paste = old(parser).in_paste();
    law_chunk_is_parsed(pending, in_paste, chunk@);
    law_pastes_are_told_from_bytes(pending + chunk@, in_paste);
    lemma_step_loses_nothing(pending, in_paste, InputSignal::Chunk(chunk)@);
    law_held_input_comes_out_as_it_went_in(pending);
    law_held_input_comes_out_as_it_went_in(final(parser).pending());
    law_events_are_what_they_hold(chunk, result.0@);
    if result.0@.len() > 0 {
        assert(event_models(result.0@)[0] == result.0@[0]@);
    }
}

/// Bytes in one run, if there are any.
pub open spec fn one_run(events: Seq<InputEvent>, bytes: Seq<u8>) -> bool {
    if bytes.len() > 0 {
        events.len() == 1 && (events[0] matches InputEvent::Bytes(run) && run@ == bytes)
    } else {
        events.len() == 0
    }
}

/// A pause in an open paste reports nothing and changes nothing; outside a paste it releases what
/// is held back. The end of the input releases everything, and ends the forwarding.
pub proof fn law_pause_and_end_release_what_is_held(
    idle: &mut BracketedPasteParser,
    idle_result: (Vec<InputEvent>, bool),
    closed: &mut BracketedPasteParser,
    closed_result: (Vec<InputEvent>, bool),
)
    requires
        call_ensures(input_proxy_step, (idle, InputSignal::Idle), idle_result),
        call_ensures(input_proxy_step, (closed, InputSignal::Closed), closed_result),
    ensures
        idle_result.1,
        final(idle).in_paste() == old(idle).in_paste(),
        old(idle).in_paste() ==> idle_result.0@.len() == 0 && final(idle).pending() == old(idle).pending(),
        !old(idle).in_paste() ==> one_run(idle_result.0@, old(idle).pending()) && final(idle).pending().len() == 0,
        !closed_result.1,
        one_run(closed_result.0@, unreported(*old(closed))),
        unreported(*final(closed)).len() == 0,
        !final(closed).in_paste(),
{
    law_pauses_release_what_is_held(old(idle).pending());
    law_pauses_release_what_is_held(old(closed).pending());
    lemma_one_run(idle_result.0@, old(idle).pending());
    lemma_one_run(closed_result.0@, unreported(*old(closed)));
    let first = event_models(idle_result.0@);
    let second = event_models(closed_result.0@);
    assert(first.len() == idle_result.0@.len());
    assert(second.len() == closed_result.0@.len());
}

/// One run of bytes, as a list of events.
proof fn lemma_one_run(events: Seq<InputEvent>, bytes: Seq<u8>)
    ensures
        bytes.len() > 0 && event_models(events) == seq![EventModel::Bytes(bytes)] ==> one_run(
            events,
            bytes,
        ),
        bytes.len() == 0 && event_models(events).len() == 0 ==> one_run(events, bytes),
{
    let models = event_models(events);
    assert(models.len() == events.len());
    if bytes.len() > 0 && models == seq![EventModel::Bytes(bytes)] {
        assert(models[0] == events[0]@);
    }
}

/// The parser itself reports a written paste as that paste.
pub proof fn law_parser_reads_pastes_back(
    parser: &mut BracketedPasteParser,
    input: &[u8],
    payload: Seq<u8>,
    events: Vec<InputEvent>,
)
    requires
        call_ensures(BracketedPasteParser::feed, (parser, input), events),
        unreported(*old(parser)).len() == 0,
        input@ == opening() + payload + closing(),
        !stands_in(closing(), payload),
    ensures
        events@.len() == 1,
        events@[0] matches InputEvent::Paste(found) && found@ == payload,
        unreported(*final(parser)).len() == 0,
{
    law_whole_paste_is_reported_as_a_paste(payload);
    assert(old(parser).pending() =~= seq![]);
    law_chunk_is_parsed(seq![], false, input@);
    let models = event_models(events@);
    assert(models.len() == 1);
    assert(models[0] == events@[0]@);
}

/// The parser loses nothing and tells bytes and pastes apart, whatever it is fed. It goes on
/// where it stopped, so what was held back is read again in front of the input.
pub proof fn law_parser_loses_nothing(
    parser: &mut BracketedPasteParser,
    input: &[u8],
    events: Vec<InputEvent>,
)
    requires
        call_ensures(BracketedPasteParser::feed, (parser, input), events),
    ensures
        ({
            let found = scan(old(parser).pending() + input@, old(parser).in_paste());
            &&& event_models(events@) == found.events
            &&& final(parser).pending() == found.pending
            &&& final(parser).in_paste() == found.in_paste
        }),
        told_apart(event_models(events@)),
        replay(event_models(events@)) + unreported(*final(parser)) == unreported(*old(parser))
            + input@,
        final(parser).in_paste() ==> !stands_in(closing(), final(parser).pending()),
        !final(parser).in_paste() ==> final(parser).pending().len() < 6 && final(parser).pending()
            == opening().subrange(0, final(parser).pending().len() as int),
{
    let pending = old(parser).pending();
    let in_paste = old(parser).in_paste();
    law_pastes_are_told_from_bytes(pending + input@, in_paste);
    law_nothing_is_lost(pending + input@, in_paste);
    law_held_input_comes_out_as_it_went_in(pending);
    law_held_input_comes_out_as_it_went_in(pending + input@);
    law_held_input_comes_out_as_it_went_in(final(parser).pending());
    assert(opening() + (pending + input@) =~= (opening() + pending) + input@);
}

/// Ending the input, or giving up waiting, releases what is held back as it was sent.
pub proof fn law_parser_releases_what_it_holds(
    ended: &mut BracketedPasteParser,
    ended_events: Vec<InputEvent>,
    flushed: &mut BracketedPasteParser,
    flushed_events: Vec<InputEvent>,
)
    requires
        call_ensures(BracketedPasteParser::finish, (ended,), ended_events),
        call_ensures(BracketedPasteParser::flush_ambiguous_prefix, (flushed,), flushed_events),
    ensures
        one_run(ended_events@, unreported(*old(ended))),
        unreported(*final(ended)).len() == 0,
        !final(ended).in_paste(),
        final(flushed).in_paste() == old(flushed).in_paste(),
        old(flushed).in_paste() ==> flushed_events@.len() == 0 && final(flushed).pending() == old(flushed).pending(),
        !old(flushed).in_paste() ==> one_run(flushed_events@, old(flushed).pending()) && final(flushed).pending().len() == 0,
{
    law_held_input_comes_out_as_it_went_in(old(ended).pending());
    law_held_input_comes_out_as_it_went_in(unreported(*old(ended)));
    law_held_input_comes_out_as_it_went_in(old(flushed).pending());
    lemma_one_run(ended_events@, unreported(*old(ended)));
    lemma_one_run(flushed_events@, old(flushed).pending());
    assert(event_models(flushed_events@).len() == flushed_events@.len());
    assert(event_models(ended_events@).len() == ended_events@.len());
}

/// A paste is appended between the terminal's markers, behind what was there.
pub proof fn law_paste_is_written_between_markers(writer: &mut Vec<u8>, payload: &[u8], nothing: ())
    requires
        call_ensures(write_bracketed_paste, (writer, payload), nothing),
    ensures
        final(writer)@ == old(writer)@ + (opening() + payload@ + closing()),
{
    law_frame_is_what_a_terminal_sends(payload@);
}

/// A search gives the leftmost place of the needle, or nothing where it stands nowhere.
pub proof fn law_needle_is_found_at_its_first_place(
    haystack: &[u8],
    needle: &[u8],
    found: Option<usize>,
)
    requires
        call_ensures(find_subslice, (haystack, needle), found),
    ensures
        match found {
            Some(i) => stands_at(needle@, haystack@, i as int) && forall|j: int|
                0 <= j < i ==> !stands_at(needle@, haystack@, j),
            None => !stands_in(needle@, haystack@),
        },
{
    law_search_finds_the_first(haystack@, needle@);
}

/// The end of the bytes that a pattern begins with is the longest one short of the pattern.
pub proof fn law_longest_beginning_is_held(bytes: &[u8], prefix: &[u8], len: usize)
    requires
        call_ensures(longest_suffix_prefix, (bytes, prefix), len),
    ensures
        len <= bytes@.len(),
        len == 0 || len < prefix@.len(),
        stands_at(prefix@.subrange(0, len as int), bytes@, bytes@.len() - len),
        forall|m: int|
            len < m <= bytes@.len() && m < prefix@.len() ==> !stands_at(
                #[trigger] prefix@.subrange(0, m),
                bytes@,
                bytes@.len() - m,
            ),
{
    law_overlap_is_the_longest(bytes@, prefix@);
}

/// What is done about a pasted path: an absolute Windows path is uploaded, for any other absolute
/// path the remote host is looked at first, and everything else is written as it was pasted.
/// Quotes, a space and line ends around the path do not change that.
pub open spec fn is_right_for_path(
    action: ForwardAction,
    path: Seq<char>,
    spaced: bool,
    payload: Seq<u8>,
) -> bool {
    if is_windows_path(path) {
        &&& action matches ForwardAction::Upload(file)
        &&& file.local.path@ == path
        &&& file.local.trailing_space == spaced
        &&& file.payload@ == payload
    } else if path.len() > 0 && path[0] == '/' {
        &&& action matches ForwardAction::LookUp(file)
        &&& file.local.path@ == path
        &&& file.local.trailing_space == spaced
        &&& file.payload@ == payload
    } else {
        action matches ForwardAction::Write(out) && out@ == opening() + payload + closing()
    }
}

/// A paste is acted on by the path in it, whatever surrounds that path.
pub proof fn law_event_is_acted_on(
    path: Seq<char>,
    quote: Option<char>,
    spaced: bool,
    ends: Seq<char>,
    payload: Vec<u8>,
    action: ForwardAction,
)
    requires
        is_plain_paste(path, quote, spaced, ends),
        payload@ == encode_utf8(as_pasted(path, quote, spaced, ends)),
        call_ensures(forward_event, (InputEvent::Paste(payload),), action),
    ensures
        is_right_for_path(action, path, spaced, payload@),
{
    assert(InputEvent::Paste(payload)@ == EventModel::Paste(payload@));
    law_pasted_path_is_acted_on(path, quote, spaced, ends, action);
}

/// Typed bytes, pastes that are not text and pastes of several lines are written as they came.
pub proof fn law_event_is_left_alone(
    bytes: Vec<u8>,
    text: Seq<char>,
    i: int,
    j: int,
    typed: ForwardAction,
    pasted: ForwardAction,
)
    requires
        call_ensures(forward_event, (InputEvent::Bytes(bytes),), typed),
        call_ensures(forward_event, (InputEvent::Paste(bytes),), pasted),
    ensures
        typed matches ForwardAction::Write(out) && out@ == bytes@,
        !valid_utf8(bytes@) ==> (pasted matches ForwardAction::Write(out) && out@ == opening()
            + bytes@ + closing()),
        bytes@ == encode_utf8(text) && 0 <= i < j < text.len() && (text[i] == '\r' || text[i]
            == '\n') && text[j] != '\r' && text[j] != '\n' ==> (
        pasted matches ForwardAction::Write(out) && out@ == opening() + bytes@ + closing()),
{
    assert(InputEvent::Paste(bytes)@ == EventModel::Paste(bytes@));
    assert(InputEvent::Bytes(bytes)@ == EventModel::Bytes(bytes@));
    law_other_input_is_left_alone(bytes@, pasted, typed);
    if bytes@ == encode_utf8(text) && 0 <= i < j < text.len() && (text[i] == '\r' || text[i]
        == '\n') && text[j] != '\r' && text[j] != '\n' {
        law_several_lines_are_left_alone(text, i, j, pasted);
    }
}

/// In a list every event gets its own action, at its own place, as it would alone.
pub proof fn law_every_event_is_acted_on(
    events: Vec<InputEvent>,
    actions: Vec<ForwardAction>,
    k: int,
    path: Seq<char>,
    quote: Option<char>,
    spaced: bool,
    ends: Seq<char>,
)
    requires
        call_ensures(forward_events, (events,), actions),
        0 <= k < events@.len(),
    ensures
        actions@.len() == events@.len(),
        match events@[k] {
            InputEvent::Bytes(bytes) => actions@[k] matches ForwardAction::Write(out) && out@
                == bytes@,
            InputEvent::Paste(payload) => {
                &&& is_plain_paste(path, quote, spaced, ends) && payload@ == encode_utf8(
                    as_pasted(path, quote, spaced, ends),
                ) ==> is_right_for_path(actions@[k], path, spaced, payload@)
                &&& !valid_utf8(payload@) ==> (actions@[k] matches ForwardAction::Write(out)
                    && out@ == opening() + payload@ + closing())
            },
        },
{
    match events@[k] {
        InputEvent::Bytes(bytes) => {},
        InputEvent::Paste(payload) => {
            law_frame_is_what_a_terminal_sends(payload@);
            if is_plain_paste(path, quote, spaced, ends) && payload@ == encode_utf8(
                as_pasted(path, quote, spaced, ends),
            ) {
                law_pasted_path_is_acted_on(path, quote, spaced, ends, actions@[k]);
            }
        },
    }
}

/// A paste is taken for a local path by the text in it.
pub proof fn law_local_paths_are_recognised(
    path: Seq<char>,
    quote: Option<char>,
    spaced: bool,
    ends: Seq<char>,
    payload: &[u8],
    target: PasteTarget,
)
    requires
        is_plain_paste(path, quote, spaced, ends),
        payload@ == encode_utf8(as_pasted(path, quote, spaced, ends)),
        call_ensures(local_path_from_paste, (payload,), target),
    ensures
        if is_windows_path(path) {
            &&& target matches PasteTarget::Local(local)
            &&& local.path@ == path
            &&& local.trailing_space == spaced
        } else if path.len() > 0 && path[0] == '/' {
            &&& target matches PasteTarget::LocalUnlessRemote(local)
            &&& local.path@ == path
            &&& local.trailing_space == spaced
        } else {
            target is NotLocal
        },
{
    law_paste_is_taken_for_what_it_says(path, quote, spaced, ends);
}

/// A Windows path is told by its drive letter or server, and quotes come off in pairs.
pub proof fn law_path_helpers(value: &str, windows: bool, inner: &str, text: Seq<char>, quote: char)
    requires
        call_ensures(is_windows_absolute_path, (value,), windows),
        call_ensures(strip_matching_quotes, (value,), inner),
        quote == '\'' || quote == '"',
    ensures
        windows <==> is_windows_path(value@),
        value@ == seq![quote] + text + seq![quote] ==> inner@ == text,
        value@.len() < 2 || value@.first() != value@.last() || (value@.first() != '\''
            && value@.first() != '"') ==> inner@ == value@,
{
    law_windows_paths_are_recognised(value@);
    law_quotes_come_off_in_pairs(text, quote);
    law_quotes_come_off_in_pairs(value@, quote);
}

/// A path that the remote host has is left to the Agent as it was pasted; one that it has not is
/// uploaded, the drop being passed on unchanged.
pub proof fn law_lookup_decides(file: DroppedFile, there: ForwardAction, missing: ForwardAction)
    requires
        call_ensures(after_lookup, (file, true), there),
        call_ensures(after_lookup, (file, false), missing),
    ensures
        there matches ForwardAction::Write(out) && out@ == opening() + file.payload@ + closing(),
        missing == ForwardAction::Upload(file),
{
    law_frame_is_what_a_terminal_sends(file.payload@);
}

/// After an upload the Agent gets the remote path as a paste, byte for byte where it is UTF-8,
/// and a space behind it exactly if one was pasted; nobody is told anything. After a failure the
/// Agent gets the paste as it came, and the user the reason in full.
pub proof fn law_upload_is_delivered(
    file: DroppedFile,
    remote_path: Vec<u8>,
    error: BridgeError,
    done: Delivery,
    failed: Delivery,
)
    requires
        call_ensures(after_upload, (file, Ok(remote_path)), done),
        call_ensures(after_upload, (file, Err(error)), failed),
    ensures
        done.notice is None,
        done.write@ == opening() + encode_utf8(
            lossy_chars(remote_path@) + (if file.local.trailing_space {
                seq![' ']
            } else {
                seq![]
            }),
        ) + closing(),
        valid_utf8(remote_path@) && file.local.trailing_space ==> done.write@ == opening()
            + remote_path@ + seq![0x20u8] + closing(),
        valid_utf8(remote_path@) && !file.local.trailing_space ==> done.write@ == opening()
            + remote_path@ + closing(),
        failed.write@ == opening() + file.payload@ + closing(),
        failed.notice matches Some(notice) && notice@ == "\r\n[agentdrop] upload failed: "@
            + bridge_error_text(error) + "\r\n"@,
{
    law_frame_is_what_a_terminal_sends(file.payload@);
    law_frame_is_what_a_terminal_sends(remote_path@);
    law_frame_is_what_a_terminal_sends(remote_path@.push(0x20));
    let shown = lossy_chars(remote_path@);
    law_frame_is_what_a_terminal_sends(encode_utf8(shown));
    law_frame_is_what_a_terminal_sends(encode_utf8(shown.push(' ')));
    assert(shown + seq![' '] =~= shown.push(' '));
    assert(shown + Seq::<char>::empty() =~= shown);
    assert(opening() + remote_path@.push(0x20) + closing() =~= opening() + remote_path@
        + seq![0x20u8] + closing());
}

/// The paste that takes the place of a drop is the remote path between markers.
pub proof fn law_replacement_is_pasted(remote_path: String, bare: Vec<u8>, spaced: Vec<u8>)
    requires
        call_ensures(replacement_paste, (remote_path, false), bare),
        call_ensures(replacement_paste, (remote_path, true), spaced),
    ensures
        bare@ == opening() + encode_utf8(remote_path@) + closing(),
        spaced@ == opening() + encode_utf8(remote_path@ + seq![' ']) + closing(),
{
    law_frame_is_what_a_terminal_sends(encode_utf8(remote_path@));
    law_frame_is_what_a_terminal_sends(encode_utf8(remote_path@.push(' ')));
    law_replacement_is_the_remote_path(remote_path@, true);
    assert(remote_path@ + seq![' '] =~= remote_path@.push(' '));
}

/// The Agent is started with what was given, after the four words of the shell where it is asked
/// for, and not at all where nothing was given.
pub proof fn law_agent_is_started_as_given<T>(
    command: Vec<T>,
    direct: Vec<Argument<T>>,
    shell: Vec<Argument<T>>,
    zsh: bool,
    started: Option<Vec<Argument<T>>>,
)
    requires
        call_ensures(agent_argv::<T>, (command, false), direct),
        call_ensures(agent_argv::<T>, (command, true), shell),
        call_ensures(agent_command::<T>, (command, zsh), started),
    ensures
        direct@.len() == command@.len(),
        begins_with_given(argument_models(direct@), command@),
        shell@.len() == command@.len() + 4,
        shell@[0]@ == ArgumentModel::<T>::Text("zsh"@),
        shell@[1]@ == ArgumentModel::<T>::Text("-lic"@),
        shell@[2]@ == ArgumentModel::<T>::Text("\"$@\""@),
        shell@[3]@ == ArgumentModel::<T>::Text("agentdrop-proxy"@),
        begins_with_given(
            argument_models(shell@).subrange(4, shell@.len() as int),
            command@,
        ),
        match started {
            None => command@.len() == 0,
            Some(argv) => command@.len() > 0 && argument_models(argv@) == argument_models(
                if zsh {
                    shell@
                } else {
                    direct@
                },
            ),
        },
{
    law_agent_runs_as_given(command@);
    let line = argument_models(shell@);
    assert(argument_models(direct@).len() == direct@.len());
    assert(line.len() == shell@.len());
    assert(line[0] == shell@[0]@);
    assert(line[1] == shell@[1]@);
    assert(line[2] == shell@[2]@);
    assert(line[3] == shell@[3]@);
}

/// The Agent's terminal has the size of the outer one, and follows it exactly when it changes;
/// the Agent's exit code is passed on with all its bits.
pub proof fn law_terminal_follows(
    outer: Option<(u16, u16)>,
    last: (u16, u16),
    first: (u16, u16),
    change: Option<(u16, u16)>,
    code: u32,
    signed: i32,
)
    requires
        call_ensures(initial_size, (outer,), first),
        call_ensures(resize, (last, outer), change),
        call_ensures(agent_exit_code, (code,), signed),
    ensures
        outer matches Some(size) ==> first == size,
        outer is None ==> first == (120u16, 30u16),
        change is Some <==> (outer is Some && outer != Some(last)),
        change is Some ==> change == outer,
        (signed as int - code as int) % 0x1_0000_0000 == 0,
{
}

} // verus!
