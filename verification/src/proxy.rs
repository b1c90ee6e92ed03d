//! The remote side: the Agent's command line, the forwarding of terminal input, and the
//! recognition of dropped files in it.
use vstd::prelude::*;
use vstd::utf8::{
    decode_utf8, decode_utf8_encode_utf8, encode_utf8, is_ascii_chars_encode_utf8, valid_utf8,
};
use crate::argv::{argument_models, extend_given, given, push_text, words, Argument, ArgumentModel};
use crate::bridge::{bridge_error_text, BridgeError};
use crate::paste::{
    bytes_event, event_models, framed, held, scan, write_bracketed_paste, BracketedPasteParser,
    EventModel, InputEvent,
};
use crate::text::{char_vec, lemma_encode_concat, lossy_chars, lossy_text, utf8_text};

verus! {

/// The command line of the Agent: as given, or as positional arguments of a login shell that
/// runs them as its command.
pub open spec fn agent_arguments<T>(command: Seq<T>, zsh: bool) -> Seq<ArgumentModel<T>> {
    if zsh {
        words(seq!["zsh"@, "-lic"@, "\"$@\""@, "agentdrop-proxy"@]) + given(command)
    } else {
        given(command)
    }
}

/// The command line of the Agent. In `zsh` mode the shell loads its startup files and then
/// runs the command through `$@`, so that its functions apply and nothing is put together as
/// a string or evaluated.
pub fn agent_argv<T>(command: Vec<T>, zsh: bool) -> (argv: Vec<Argument<T>>)
    ensures
        argument_models(argv@) == agent_arguments(command@, zsh),
{
    let mut argv: Vec<Argument<T>> = Vec::new();
    if zsh {
        push_text(&mut argv, "zsh");
        push_text(&mut argv, "-lic");
        push_text(&mut argv, "\"$@\"");
        push_text(&mut argv, "agentdrop-proxy");
        assert(argument_models(argv@) =~= words(
            seq!["zsh"@, "-lic"@, "\"$@\""@, "agentdrop-proxy"@],
        ));
    } else {
        assert(argument_models(argv@) =~= seq![]);
    }
    extend_given(&mut argv, command);
    assert(argument_models(argv@) =~= agent_arguments(command@, zsh));
    argv
}

/// The command line of the Agent, unless no command was given.
pub fn agent_command<T>(command: Vec<T>, zsh: bool) -> (argv: Option<Vec<Argument<T>>>)
    ensures
        match argv {
            Some(argv) => {
                &&& command@.len() > 0
                &&& argument_models(argv@) == agent_arguments(command@, zsh)
                &&& argv@.len() > 0
            },
            None => command@.len() == 0,
        },
{
    if command.is_empty() {
        return None;
    }
    let argv: Vec<Argument<T>> = agent_argv(command, zsh);
    assert(argument_models(argv@).len() > 0);
    Some(argv)
}

/// The size of the Agent's terminal, in columns and rows: that of the outer terminal, or 120
/// by 30 where it has none.
pub fn initial_size(outer: Option<(u16, u16)>) -> (size: (u16, u16))
    ensures
        size == (match outer {
            Some(size) => size,
            None => (120u16, 30u16),
        }),
{
    match outer {
        Some(size) => size,
        None => (120, 30),
    }
}

/// The new size that the Agent's terminal has to take, if the outer terminal has another than
/// the last one seen.
pub fn resize(last: (u16, u16), outer: Option<(u16, u16)>) -> (change: Option<(u16, u16)>)
    ensures
        change == (match outer {
            Some(size) => if size == last {
                None
            } else {
                Some(size)
            },
            None => None,
        }),
{
    match outer {
        Some((cols, rows)) => if cols == last.0 && rows == last.1 {
            None
        } else {
            Some((cols, rows))
        },
        None => None,
    }
}

/// The exit code of this program: that of the Agent, as a signed number of the same bits.
pub fn agent_exit_code(code: u32) -> (signed: i32)
    ensures
        code <= i32::MAX ==> signed == code,
        code > i32::MAX ==> signed == code - 0x1_0000_0000,
{
    proof {
        assert(code <= 0x7fff_ffffu32 ==> (code as i32) == code) by (bit_vector);
        assert(code > 0x7fff_ffffu32 ==> (code as i32) == code - 0x1_0000_0000) by (bit_vector);
    }
    code as i32
}

/// How long the beginning of a marker is held back, in milliseconds. Whatever follows within
/// that time may still complete it.
pub const AMBIGUOUS_ESCAPE_TIMEOUT_MS: u64 = 40;

/// What happened at the terminal.
#[derive(Debug, PartialEq, Eq)]
pub enum InputSignal {
    /// Input arrived.
    Chunk(Vec<u8>),
    /// Nothing arrived for a while.
    Idle,
    /// There is no more input.
    Closed,
}

/// The mathematical counterpart of [`InputSignal`].
pub enum SignalModel {
    Chunk(Seq<u8>),
    Idle,
    Closed,
}

impl View for InputSignal {
    type V = SignalModel;

    open spec fn view(&self) -> SignalModel {
        match self {
            InputSignal::Chunk(bytes) => SignalModel::Chunk(bytes@),
            InputSignal::Idle => SignalModel::Idle,
            InputSignal::Closed => SignalModel::Closed,
        }
    }
}

/// What the forwarding of terminal input makes of a signal: the events it reports, and what
/// it holds back afterwards.
pub ghost struct Forwarding {
    pub events: Seq<EventModel>,
    pub pending: Seq<u8>,
    pub in_paste: bool,
}

/// One step of the forwarding. Input is parsed; silence releases the beginning of a marker;
/// the end of the input releases everything.
pub open spec fn forwarding_step(
    pending: Seq<u8>,
    in_paste: bool,
    signal: SignalModel,
) -> Forwarding {
    match signal {
        SignalModel::Chunk(bytes) => {
            let result = scan(pending + bytes, in_paste);
            Forwarding {
                events: result.events,
                pending: result.pending,
                in_paste: result.in_paste,
            }
        },
        SignalModel::Idle => if in_paste {
            Forwarding { events: seq![], pending, in_paste }
        } else {
            Forwarding { events: bytes_event(pending), pending: seq![], in_paste }
        },
        SignalModel::Closed => Forwarding {
            events: bytes_event(held(pending, in_paste)),
            pending: seq![],
            in_paste: false,
        },
    }
}

/// Takes one signal from the terminal: returns the events to forward to the Agent, and
/// whether to go on afterwards.
pub fn input_proxy_step(parser: &mut BracketedPasteParser, signal: InputSignal) -> (result: (
    Vec<InputEvent>,
    bool,
))
    ensures
        ({
            let step = forwarding_step(old(parser).pending(), old(parser).in_paste(), signal@);
            &&& event_models(result.0@) == step.events
            &&& final(parser).pending() == step.pending
            &&& final(parser).in_paste() == step.in_paste
        }),
        result.1 == (signal@ !is Closed),
        old(parser).wf() ==> final(parser).wf(),
{
    match signal {
        InputSignal::Chunk(bytes) => (parser.feed(&bytes), true),
        InputSignal::Idle => (parser.flush_ambiguous_prefix(), true),
        InputSignal::Closed => (parser.finish(), false),
    }
}

/// A local path that was pasted, and whether a space followed it.
#[derive(Debug, PartialEq, Eq)]
pub struct LocalPathPaste {
    pub path: String,
    pub trailing_space: bool,
}

/// What a paste is taken for.
#[derive(Debug, PartialEq, Eq)]
pub enum PasteTarget {
    /// Ordinary Agent input.
    NotLocal,
    /// A path of the local machine.
    Local(LocalPathPaste),
    /// A path of the local machine, unless the remote host has a file there.
    LocalUnlessRemote(LocalPathPaste),
}

/// An ASCII letter.
pub open spec fn is_ascii_letter(c: char) -> bool {
    ||| 'a' <= c <= 'z'
    ||| 'A' <= c <= 'Z'
}

/// A Windows path with a drive letter, or one that names a server.
pub open spec fn is_windows_absolute(s: Seq<char>) -> bool {
    ||| {
        &&& s.len() >= 3
        &&& is_ascii_letter(s[0])
        &&& s[1] == ':'
        &&& s[2] == '\\' || s[2] == '/'
    }
    ||| s.len() >= 2 && s[0] == '\\' && s[1] == '\\'
}

/// `s` without the quotes around it, where the same quote stands at both ends.
pub open spec fn unquoted(s: Seq<char>) -> Seq<char> {
    if s.len() >= 2 && s.first() == s.last() && (s.first() == '\'' || s.first() == '"') {
        s.subrange(1, s.len() - 1)
    } else {
        s
    }
}

/// A character that ends a line.
pub open spec fn is_line_end(c: char) -> bool {
    c == '\r' || c == '\n'
}

/// `s` without the line ends at its end.
pub open spec fn without_line_end(s: Seq<char>) -> Seq<char>
    decreases s.len(),
{
    if s.len() > 0 && is_line_end(s.last()) {
        without_line_end(s.drop_last())
    } else {
        s
    }
}

/// What a pasted text says, apart from what surrounds it: line ends behind it, one space
/// after those are gone, and quotes. Nothing where that is empty or several lines.
pub open spec fn pasted_path(text: Seq<char>) -> Option<(Seq<char>, bool)> {
    let line = without_line_end(text);
    let spaced = line.len() > 0 && line.last() == ' ';
    let path = unquoted(
        if spaced {
            line.drop_last()
        } else {
            line
        },
    );
    if line.len() == 0 || path.len() == 0 || exists|i: int|
        0 <= i < line.len() && is_line_end(#[trigger] line[i]) {
        None
    } else {
        Some((path, spaced))
    }
}

/// The mathematical counterpart of [`PasteTarget`].
pub enum TargetModel {
    NotLocal,
    Local { path: Seq<char>, trailing_space: bool },
    LocalUnlessRemote { path: Seq<char>, trailing_space: bool },
}

impl View for PasteTarget {
    type V = TargetModel;

    open spec fn view(&self) -> TargetModel {
        match self {
            PasteTarget::NotLocal => TargetModel::NotLocal,
            PasteTarget::Local(paste) => TargetModel::Local {
                path: paste.path@,
                trailing_space: paste.trailing_space,
            },
            PasteTarget::LocalUnlessRemote(paste) => TargetModel::LocalUnlessRemote {
                path: paste.path@,
                trailing_space: paste.trailing_space,
            },
        }
    }
}

/// What a paste is taken for: text that is one absolute path is a local path. A Windows path
/// is one in any case; a Unix path is one only if the remote host has nothing there.
pub open spec fn target_of(payload: Seq<u8>) -> TargetModel {
    if valid_utf8(payload) {
        match pasted_path(decode_utf8(payload)) {
            Some((path, trailing_space)) => if is_windows_absolute(path) {
                TargetModel::Local { path, trailing_space }
            } else if path[0] == '/' {
                TargetModel::LocalUnlessRemote { path, trailing_space }
            } else {
                TargetModel::NotLocal
            },
            None => TargetModel::NotLocal,
        }
    } else {
        TargetModel::NotLocal
    }
}

/// Whether `value` is an absolute Windows path.
pub fn is_windows_absolute_path(value: &str) -> (yes: bool)
    ensures
        yes == is_windows_absolute(value@),
{
    let n: usize = value.unicode_len();
    if n < 2 {
        return false;
    }
    let first: char = value.get_char(0);
    let second: char = value.get_char(1);
    if first == '\\' && second == '\\' {
        return true;
    }
    if n < 3 {
        return false;
    }
    let third: char = value.get_char(2);
    (('a' <= first && first <= 'z') || ('A' <= first && first <= 'Z')) && second == ':' && (third
        == '\\' || third == '/')
}

/// `value` without the quotes around it.
pub fn strip_matching_quotes(value: &str) -> (inner: &str)
    ensures
        inner@ == unquoted(value@),
{
    let n: usize = value.unicode_len();
    if n >= 2 {
        let first: char = value.get_char(0);
        let last: char = value.get_char(n - 1);
        if first == last && (first == '\'' || first == '"') {
            return value.substring_char(1, n - 1);
        }
    }
    value
}

/// The one line of a text, without the line ends behind it.
fn single_line(text: &str) -> (line: Option<&str>)
    ensures
        match line {
            Some(line) => {
                &&& line@ == without_line_end(text@)
                &&& forall|i: int| 0 <= i < line@.len() ==> !is_line_end(#[trigger] line@[i])
            },
            None => exists|i: int|
                0 <= i < without_line_end(text@).len() && is_line_end(
                    #[trigger] without_line_end(text@)[i],
                ),
        },
{
    let chars: Vec<char> = char_vec(text);
    let mut end: usize = chars.len();
    assert(text@.subrange(0, end as int) =~= text@);
    while end > 0 && (chars[end - 1] == '\r' || chars[end - 1] == '\n')
        invariant
            chars@ == text@,
            end <= chars@.len(),
            without_line_end(text@) == without_line_end(text@.subrange(0, end as int)),
        decreases end,
    {
        assert(text@.subrange(0, end as int).drop_last() =~= text@.subrange(0, end - 1));
        end = end - 1;
    }
    let ghost line = text@.subrange(0, end as int);
    let mut i: usize = 0;
    while i < end
        invariant
            chars@ == text@,
            end <= chars@.len(),
            i <= end,
            line == text@.subrange(0, end as int),
            line == without_line_end(text@),
            forall|j: int| 0 <= j < i ==> !is_line_end(#[trigger] line[j]),
        decreases end - i,
    {
        if chars[i] == '\r' || chars[i] == '\n' {
            assert(is_line_end(line[i as int]));
            return None;
        }
        i = i + 1;
    }
    Some(text.substring_char(0, end))
}

/// What a paste is taken for.
pub fn local_path_from_paste(payload: &[u8]) -> (target: PasteTarget)
    ensures
        target@ == target_of(payload@),
{
    let text: &str = match utf8_text(payload) {
        Some(text) => text,
        None => {
            return PasteTarget::NotLocal;
        },
    };
    let line: &str = match single_line(text) {
        Some(line) => line,
        None => {
            return PasteTarget::NotLocal;
        },
    };
    let n: usize = line.unicode_len();
    if n == 0 {
        return PasteTarget::NotLocal;
    }
    let trailing_space: bool = line.get_char(n - 1) == ' ';
    let body: &str = if trailing_space {
        line.substring_char(0, n - 1)
    } else {
        line
    };
    assert(trailing_space ==> body@ =~= line@.drop_last());
    let path: &str = strip_matching_quotes(body);
    assert(path@.len() > 0 ==> pasted_path(text@) == Some((path@, trailing_space)));
    if path.unicode_len() == 0 {
        return PasteTarget::NotLocal;
    }
    let windows: bool = is_windows_absolute_path(path);
    let unix: bool = path.get_char(0) == '/';
    if !windows && !unix {
        return PasteTarget::NotLocal;
    }
    let paste = LocalPathPaste { path: path.to_owned(), trailing_space };
    if windows {
        PasteTarget::Local(paste)
    } else {
        PasteTarget::LocalUnlessRemote(paste)
    }
}

/// What to do about one event of terminal input.
#[derive(Debug, PartialEq, Eq)]
pub enum ForwardAction {
    /// Write these bytes to the Agent.
    Write(Vec<u8>),
    /// Look whether the remote host has a file at the path of the drop, then decide.
    LookUp(DroppedFile),
    /// Upload the file, then decide.
    Upload(DroppedFile),
}

/// A paste that was taken for a dropped file, with the payload it came in.
#[derive(Debug, PartialEq, Eq)]
pub struct DroppedFile {
    pub local: LocalPathPaste,
    pub payload: Vec<u8>,
}

/// The drop of `path` that came in `payload`.
pub open spec fn is_drop_of(
    file: DroppedFile,
    path: Seq<char>,
    trailing_space: bool,
    payload: Seq<u8>,
) -> bool {
    &&& file.local.path@ == path
    &&& file.local.trailing_space == trailing_space
    &&& file.payload@ == payload
}

/// The payload as the paste that it came in.
fn paste_frame(payload: &[u8]) -> (frame: Vec<u8>)
    ensures
        frame@ == framed(payload@),
{
    let mut frame: Vec<u8> = Vec::new();
    write_bracketed_paste(&mut frame, payload);
    assert(frame@ =~= framed(payload@));
    frame
}

/// What to do about an event: ordinary input and ordinary pastes go to the Agent as they came;
/// a paste that is a local path is uploaded, after a look at the remote host where that has a
/// say.
pub open spec fn is_action_for(action: ForwardAction, event: EventModel) -> bool {
    match event {
        EventModel::Bytes(bytes) => action matches ForwardAction::Write(out) && out@ == bytes,
        EventModel::Paste(payload) => match target_of(payload) {
            TargetModel::NotLocal => action matches ForwardAction::Write(out) && out@ == framed(
                payload,
            ),
            TargetModel::Local { path, trailing_space } => {
                action matches ForwardAction::Upload(file) && is_drop_of(
                    file,
                    path,
                    trailing_space,
                    payload,
                )
            },
            TargetModel::LocalUnlessRemote { path, trailing_space } => {
                action matches ForwardAction::LookUp(file) && is_drop_of(
                    file,
                    path,
                    trailing_space,
                    payload,
                )
            },
        },
    }
}

/// Decides about a list of events, one action for each, in their order.
pub fn forward_events(events: Vec<InputEvent>) -> (actions: Vec<ForwardAction>)
    ensures
        actions@.len() == events@.len(),
        forall|i: int|
            0 <= i < actions@.len() ==> is_action_for(#[trigger] actions@[i], events@[i]@),
{
    let mut actions: Vec<ForwardAction> = Vec::new();
    for event in it: events.into_iter()
        invariant
            it.seq() == events@,
            actions@.len() == it.index(),
            forall|i: int|
                0 <= i < actions@.len() ==> is_action_for(#[trigger] actions@[i], events@[i]@),
    {
        actions.push(forward_event(event));
    }
    actions
}

/// Decides about one event.
pub fn forward_event(event: InputEvent) -> (action: ForwardAction)
    ensures
        is_action_for(action, event@),
{
    match event {
        InputEvent::Bytes(bytes) => ForwardAction::Write(bytes),
        InputEvent::Paste(payload) => match local_path_from_paste(&payload) {
            PasteTarget::NotLocal => ForwardAction::Write(paste_frame(&payload)),
            PasteTarget::Local(local) => ForwardAction::Upload(DroppedFile { local, payload }),
            PasteTarget::LocalUnlessRemote(local) => ForwardAction::LookUp(
                DroppedFile { local, payload },
            ),
        },
    }
}

/// Decides about a Unix path once it is known whether the remote host has a file there. If it
/// has, the paste goes to the Agent as it came.
pub fn after_lookup(file: DroppedFile, exists_remotely: bool) -> (action: ForwardAction)
    ensures
        exists_remotely ==> (action matches ForwardAction::Write(out) && out@ == framed(
            file.payload@,
        )),
        !exists_remotely ==> action == ForwardAction::Upload(file),
{
    if exists_remotely {
        ForwardAction::Write(paste_frame(&file.payload))
    } else {
        ForwardAction::Upload(file)
    }
}

/// What the Agent gets after an upload, and what the user is told.
#[derive(Debug, PartialEq, Eq)]
pub struct Delivery {
    pub write: Vec<u8>,
    pub notice: Option<String>,
}

/// The text that takes the place of a local path.
pub open spec fn replacement(remote_path: Seq<char>, trailing_space: bool) -> Seq<char> {
    if trailing_space {
        remote_path.push(' ')
    } else {
        remote_path
    }
}

/// The paste that takes the place of a dropped file: its remote path, followed by a space if
/// one was pasted.
pub fn replacement_paste(remote_path: String, trailing_space: bool) -> (frame: Vec<u8>)
    ensures
        frame@ == framed(encode_utf8(replacement(remote_path@, trailing_space))),
{
    let mut text: String = remote_path;
    if trailing_space {
        text.push(' ');
    }
    paste_frame(text.as_str().as_bytes())
}

/// What the user is told about a failed upload.
pub open spec fn failure_notice(error: BridgeError) -> Seq<char> {
    "\r\n[agentdrop] upload failed: "@ + bridge_error_text(error) + "\r\n"@
}

/// Decides what the Agent gets: the remote path in place of the local one, followed by a space
/// if one was pasted, or, where the upload failed, the paste as it came. A remote path that is
/// UTF-8 arrives byte for byte.
pub fn after_upload(file: DroppedFile, result: Result<Vec<u8>, BridgeError>) -> (delivery: Delivery)
    ensures
        match result {
            Ok(remote_path) => {
                &&& delivery.write@ == framed(
                    encode_utf8(
                        replacement(lossy_chars(remote_path@), file.local.trailing_space),
                    ),
                )
                &&& valid_utf8(remote_path@) ==> delivery.write@ == framed(
                    if file.local.trailing_space {
                        remote_path@.push(0x20)
                    } else {
                        remote_path@
                    },
                )
                &&& delivery.notice is None
            },
            Err(error) => {
                &&& delivery.write@ == framed(file.payload@)
                &&& delivery.notice matches Some(notice)
                &&& notice@ == failure_notice(error)
            },
        },
{
    match result {
        Ok(remote_path) => {
            let text: String = lossy_text(&remote_path);
            proof {
                if valid_utf8(remote_path@) {
                    let chars = decode_utf8(remote_path@);
                    decode_utf8_encode_utf8(remote_path@);
                    lemma_encode_concat(chars, seq![' ']);
                    is_ascii_chars_encode_utf8(seq![' ']);
                    assert(chars + seq![' '] =~= chars.push(' '));
                    assert(encode_utf8(seq![' ']) =~= seq![0x20u8]);
                    assert(remote_path@ + seq![0x20u8] =~= remote_path@.push(0x20));
                }
            }
            Delivery {
                write: replacement_paste(text, file.local.trailing_space),
                notice: None,
            }
        },
        Err(error) => {
            let mut notice: String = "\r\n[agentdrop] upload failed: ".to_owned();
            notice.append(error.message().as_str());
            notice.append("\r\n");
            Delivery { write: paste_frame(&file.payload), notice: Some(notice) }
        },
    }
}

} // verus!
