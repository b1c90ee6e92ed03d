//! What holds across the parts of the library.
pub mod bridge_calls;
pub mod commands;
pub mod drops;
pub mod images;
pub mod input_calls;
pub mod paths;
pub mod session_calls;
pub mod sockets;
pub mod streams;
pub mod support_calls;
pub mod texts;

use vstd::prelude::*;
use vstd::utf8::{
    encode_scalar, encode_utf8, encode_utf8_decode_utf8, encode_utf8_valid_utf8,
    is_ascii_chars_encode_utf8,
};
use crate::argv::{given, ArgumentModel};
use crate::bridge::{
    as_list, candidate_sockets, escapes, is_bridge, is_bridge_order, is_known, is_socket_name,
    later, paths_in_order, reply_result, step_after, tried_before, with_new, BridgeError,
    DirectoryEntry, StepModel,
};
use crate::connect::{
    refusal, session_argv, socket_path, upload_argv, upload_directory, CommandOutput, LaunchError,
    LocalFile, MAX_REQUEST_BYTES,
};
use crate::identifier::{is_hex_digit, is_identifier};
use crate::path::{below, climbs, dot_dot, is_absolute, same_path, SEPARATOR};
use crate::paste::{held, EventModel};
use crate::paste_laws::{law_nothing_is_lost, lemma_bytes_event, lemma_replay_concat, replay};
use crate::protocol::{BridgeResponse, UploadResponse, PROTOCOL_VERSION};
use crate::proxy::{
    agent_arguments, forwarding_step, is_action_for, is_line_end, is_windows_absolute,
    pasted_path, target_of, unquoted, without_line_end, ForwardAction, SignalModel, TargetModel,
};
use crate::text::{
    lemma_encode_concat, lemma_pieces_concat, lemma_single_piece, pieces, trimmed_end,
};
use crate::uploader::{ensured, made_directory, remembered};

verus! {

/// What has arrived at the terminal in a series of signals.
pub open spec fn arrived(signals: Seq<SignalModel>) -> Seq<u8>
    decreases signals.len(),
{
    if signals.len() == 0 {
        seq![]
    } else {
        arrived(signals.drop_last()) + (match signals.last() {
            SignalModel::Chunk(bytes) => bytes,
            _ => seq![],
        })
    }
}

/// The events that a fresh parser has reported after a series of signals, and what it holds
/// back then.
pub open spec fn forwarded(signals: Seq<SignalModel>) -> (Seq<EventModel>, Seq<u8>, bool)
    decreases signals.len(),
{
    if signals.len() == 0 {
        (seq![], seq![], false)
    } else {
        let (events, pending, in_paste) = forwarded(signals.drop_last());
        let step = forwarding_step(pending, in_paste, signals.last());
        (events + step.events, step.pending, step.in_paste)
    }
}

/// One step of the forwarding loses nothing.
proof fn lemma_step_loses_nothing(pending: Seq<u8>, in_paste: bool, signal: SignalModel)
    ensures
        ({
            let step = forwarding_step(pending, in_paste, signal);
            replay(step.events) + held(step.pending, step.in_paste) == held(pending, in_paste) + (
            match signal {
                SignalModel::Chunk(bytes) => bytes,
                _ => seq![],
            })
        }),
{
    let step = forwarding_step(pending, in_paste, signal);
    match signal {
        SignalModel::Chunk(bytes) => {
            law_nothing_is_lost(pending + bytes, in_paste);
            assert(held(pending + bytes, in_paste) =~= held(pending, in_paste) + bytes);
        },
        SignalModel::Idle => {
            if in_paste {
                assert(replay(step.events) =~= seq![]);
                assert(replay(step.events) + held(pending, in_paste) =~= held(pending, in_paste)
                    + Seq::<u8>::empty());
            } else {
                lemma_bytes_event(pending);
                assert(replay(step.events) + held(seq![], false) =~= held(pending, in_paste)
                    + Seq::<u8>::empty());
            }
        },
        SignalModel::Closed => {
            lemma_bytes_event(held(pending, in_paste));
            assert(replay(step.events) + held(seq![], false) =~= held(pending, in_paste)
                + Seq::<u8>::empty());
        },
    }
}

/// Whatever arrives at the terminal reaches the Agent's side in order and whole, however it
/// is cut into chunks and wherever pauses fall: the events reported so far, followed by what
/// is held back, stand for exactly the bytes that arrived.
pub proof fn law_terminal_input_is_forwarded_whole(signals: Seq<SignalModel>)
    ensures
        ({
            let (events, pending, in_paste) = forwarded(signals);
            &&& replay(events) + held(pending, in_paste) == arrived(signals)
            &&& signals.len() > 0 && signals.last() is Closed ==> replay(events) == arrived(signals)
        }),
    decreases signals.len(),
{
    if signals.len() == 0 {
        assert(replay(seq![]) =~= seq![]);
        assert(replay(seq![]) + held(seq![], false) =~= seq![]);
    } else {
        law_terminal_input_is_forwarded_whole(signals.drop_last());
        let (before, pending, in_paste) = forwarded(signals.drop_last());
        let step = forwarding_step(pending, in_paste, signals.last());
        let new = match signals.last() {
            SignalModel::Chunk(bytes) => bytes,
            _ => seq![],
        };
        lemma_step_loses_nothing(pending, in_paste, signals.last());
        lemma_replay_concat(before, step.events);
        let rest = held(step.pending, step.in_paste);
        assert(replay(before + step.events) + rest =~= replay(before) + (replay(step.events)
            + rest));
        assert(replay(before) + (held(pending, in_paste) + new) =~= (replay(before) + held(
            pending,
            in_paste,
        )) + new);
        if signals.last() is Closed {
            assert(replay(before + step.events) + rest =~= replay(before + step.events));
        }
    }
}

/// An event that is no dropped file.
pub open spec fn is_ordinary(event: EventModel) -> bool {
    match event {
        EventModel::Bytes(_) => true,
        EventModel::Paste(payload) => target_of(payload) is NotLocal,
    }
}

/// What a list of actions writes to the Agent by itself.
pub open spec fn written(actions: Seq<ForwardAction>) -> Seq<u8>
    decreases actions.len(),
{
    if actions.len() == 0 {
        seq![]
    } else {
        (match actions.first() {
            ForwardAction::Write(bytes) => bytes@,
            _ => seq![],
        }) + written(actions.drop_first())
    }
}

/// Input that drops no file reaches the Agent unchanged: what is written for a list of events
/// is the very input that they stand for.
pub proof fn law_ordinary_input_is_unchanged(events: Seq<EventModel>, actions: Seq<ForwardAction>)
    requires
        actions.len() == events.len(),
        forall|i: int| 0 <= i < actions.len() ==> is_action_for(#[trigger] actions[i], events[i]),
        forall|i: int| 0 <= i < events.len() ==> is_ordinary(#[trigger] events[i]),
    ensures
        written(actions) == replay(events),
    decreases events.len(),
{
    if events.len() > 0 {
        let rest = actions.drop_first();
        assert(is_action_for(actions[0], events[0]));
        assert forall|i: int| 0 <= i < rest.len() implies is_action_for(
            #[trigger] rest[i],
            events.drop_first()[i],
        ) by {
            assert(is_action_for(actions[i + 1], events[i + 1]));
        }
        law_ordinary_input_is_unchanged(events.drop_first(), rest);
        assert(replay(events) =~= written(actions));
    }
}

/// The Agent gets the arguments that were given, in their order and untouched, as the last
/// arguments of its command line, in either mode.
pub proof fn law_agent_arguments_are_passed_on<T>(command: Seq<T>, zsh: bool)
    ensures
        given(command).is_suffix_of(agent_arguments(command, zsh)),
{
    let argv = agent_arguments(command, zsh);
    assert(argv.subrange(argv.len() - given(command).len(), argv.len() as int) =~= given(command));
}

/// The given options of `tssh` come first and the destination last, in the interactive
/// session; in an upload they come first too.
pub proof fn law_given_options_come_first<T>(
    tssh_args: Seq<T>,
    destination: Seq<char>,
    session_id: Seq<char>,
    port: u16,
    path: T,
    directory: Seq<char>,
)
    ensures
        given(tssh_args).is_prefix_of(session_argv(tssh_args, destination, session_id, port)),
        session_argv(tssh_args, destination, session_id, port).last() == ArgumentModel::<T>::Text(
            destination,
        ),
        given(tssh_args).is_prefix_of(upload_argv(tssh_args, path, destination, directory)),
{
    let session = session_argv(tssh_args, destination, session_id, port);
    let upload = upload_argv(tssh_args, path, destination, directory);
    let n = given(tssh_args).len() as int;
    assert(session.subrange(0, n) =~= given(tssh_args));
    assert(upload.subrange(0, n) =~= given(tssh_args));
}

/// A character that means nothing special to a shell.
pub open spec fn is_shell_safe(c: char) -> bool {
    ||| 'a' <= c <= 'z'
    ||| 'A' <= c <= 'Z'
    ||| '0' <= c <= '9'
    ||| c == '.'
    ||| c == '/'
    ||| c == '_'
    ||| c == '-'
}

/// The directory of an upload holds no shell metacharacters, so it may stand in a remote
/// command as it is.
pub proof fn law_upload_directory_is_shell_safe(session_id: Seq<char>, request_id: Seq<char>)
    requires
        is_identifier(session_id),
        is_identifier(request_id),
    ensures
        forall|i: int|
            0 <= i < upload_directory(session_id, request_id).len() ==> is_shell_safe(
                #[trigger] upload_directory(session_id, request_id)[i],
            ),
{
    reveal_strlit(".cache/agentdrop/files/");
    reveal_strlit("/");
    let front = ".cache/agentdrop/files/"@;
    assert(forall|i: int| 0 <= i < front.len() ==> is_shell_safe(#[trigger] front[i]));
    assert(forall|c: char| is_hex_digit(c) ==> #[trigger] is_shell_safe(c));
}

/// A proxy finds the socket that a session opens: it stands in the directory that is searched
/// and has the name that is looked for.
pub proof fn law_session_socket_is_found(session_id: Seq<char>)
    ensures
        exists|name: Seq<char>| #[trigger]
            is_socket_name(name) && socket_path(session_id) == "/tmp/"@ + name,
{
    reveal_strlit("/tmp/agentdrop-");
    reveal_strlit("/tmp/");
    reveal_strlit("agentdrop-");
    let name = "agentdrop-"@ + session_id + ".sock"@;
    assert(name.subrange(0, "agentdrop-"@.len() as int) =~= "agentdrop-"@);
    assert(name.subrange(name.len() - ".sock"@.len(), name.len() as int) =~= ".sock"@);
    assert("/tmp/agentdrop-"@ =~= "/tmp/"@ + "agentdrop-"@);
    assert(socket_path(session_id) =~= "/tmp/"@ + name);
    assert(is_socket_name(name));
}

/// Among the entries of a directory only one order of trying the bridges is right, so what a
/// search returns is fixed by what it finds.
pub proof fn law_bridge_order_is_unique(entries: Seq<DirectoryEntry>, a: Seq<int>, b: Seq<int>)
    requires
        is_bridge_order(entries, a),
        is_bridge_order(entries, b),
    ensures
        a == b,
{
    assert forall|i: int| a.contains(i) == b.contains(i) by {
        if a.contains(i) {
            let k = choose|k: int| 0 <= k < a.len() && a[k] == i;
            assert(is_bridge(entries[a[k]]));
        }
        if b.contains(i) {
            let k = choose|k: int| 0 <= k < b.len() && b[k] == i;
            assert(is_bridge(entries[b[k]]));
        }
    }
    lemma_same_order(entries, a, b);
}

/// Two lists of the same entries, both in the order of trying them, are the same list.
proof fn lemma_same_order(entries: Seq<DirectoryEntry>, a: Seq<int>, b: Seq<int>)
    requires
        forall|i: int| a.contains(i) == b.contains(i),
        forall|k: int, l: int|
            0 <= k < l < a.len() ==> tried_before(entries, #[trigger] a[k], #[trigger] a[l]),
        forall|k: int, l: int|
            0 <= k < l < b.len() ==> tried_before(entries, #[trigger] b[k], #[trigger] b[l]),
    ensures
        a == b,
    decreases a.len(),
{
    if a.len() == 0 {
        if b.len() > 0 {
            assert(b.contains(b[0]));
        }
        assert(a =~= b);
    } else {
        assert(a.contains(a[0]));
        assert(b.contains(a[0]));
        let m = choose|m: int| 0 <= m < b.len() && b[m] == a[0];
        assert(b.contains(b[0]));
        assert(a.contains(b[0]));
        let l = choose|l: int| 0 <= l < a.len() && a[l] == b[0];
        if m > 0 {
            assert(tried_before(entries, b[0], b[m]));
            if l > 0 {
                assert(tried_before(entries, a[0], a[l]));
            }
            assert(false);
        }
        let x = a.drop_first();
        let y = b.drop_first();
        assert forall|i: int| x.contains(i) == y.contains(i) by {
            if x.contains(i) {
                let k = choose|k: int| 0 <= k < x.len() && x[k] == i;
                assert(a[k + 1] == i && tried_before(entries, a[0], a[k + 1]));
                assert(a.contains(i));
                let j = choose|j: int| 0 <= j < b.len() && b[j] == i;
                assert(j > 0);
                assert(y[j - 1] == i);
            }
            if y.contains(i) {
                let k = choose|k: int| 0 <= k < y.len() && y[k] == i;
                assert(b[k + 1] == i && tried_before(entries, b[0], b[k + 1]));
                assert(b.contains(i));
                let j = choose|j: int| 0 <= j < a.len() && a[j] == i;
                assert(j > 0);
                assert(x[j - 1] == i);
            }
        }
        lemma_same_order(entries, x, y);
        assert(a =~= seq![a[0]] + x);
        assert(b =~= seq![b[0]] + y);
    }
}

/// A message line is received as the document that was put into it, if the document does not
/// end in white space. It is never taken for a closed connection, and a document shorter than
/// the longest request line does not make it too long for a request.
pub proof fn law_message_line_is_received(document: Seq<char>)
    requires
        trimmed_end(document) == document,
    ensures
        trimmed_end(document.push('\n')) == document,
        encode_utf8(document.push('\n')).len() > 0,
        encode_utf8(document).len() < MAX_REQUEST_BYTES ==> encode_utf8(document.push('\n')).len()
            <= MAX_REQUEST_BYTES,
{
    assert(document.push('\n').drop_last() =~= document);
    lemma_encode_concat(document, seq!['\n']);
    assert(document + seq!['\n'] =~= document.push('\n'));
    is_ascii_chars_encode_utf8(seq!['\n']);
}

/// The reply of a bridge as a proxy reads it.
pub open spec fn as_upload_response(response: BridgeResponse) -> UploadResponse {
    UploadResponse {
        version: response.version,
        remote_relative_path: response.remote_relative_path,
        error: response.error,
    }
}

/// A proxy understands every reply of a bridge of its version: a path is taken as the path of
/// the file, an error as a refusal for that reason, and a reply without either is refused.
pub proof fn law_bridge_replies_are_understood(response: BridgeResponse)
    requires
        response.version == PROTOCOL_VERSION,
    ensures
        ({
            let result = reply_result(as_upload_response(response));
            &&& response.error matches Some(error) ==> result == Err::<String, _>(
                BridgeError::Refused(error),
            )
            &&& response.error is None ==> match response.remote_relative_path {
                Some(path) => result == Ok::<_, BridgeError>(path),
                None => result == Err::<String, _>(BridgeError::NoPath),
            }
        }),
{
}

/// A reply of any other version is refused, whatever else it says.
pub proof fn law_other_versions_are_refused(response: UploadResponse)
    requires
        response.version != PROTOCOL_VERSION,
    ensures
        reply_result(response) == Err::<String, _>(BridgeError::VersionMismatch),
{
}

/// A path that is resolved starts with the home directory and does not lead up again behind
/// it; it is absolute if the home directory is.
pub proof fn law_resolved_path_stays_below_home(home: Seq<u8>, relative: Seq<u8>)
    requires
        !escapes(relative),
    ensures
        home.is_prefix_of(below(home, relative)),
        climbs(below(home, relative)) ==> climbs(home),
        is_absolute(below(home, relative)) == is_absolute(home),
{
    let path = below(home, relative);
    assert(path.subrange(0, home.len() as int) =~= home);
    if home.len() == 0 {
        assert(path =~= relative);
    } else {
        let base = if home.last() == SEPARATOR {
            home.drop_last()
        } else {
            home
        };
        assert(path =~= base.push(SEPARATOR) + relative);
        lemma_pieces_concat(base, relative, SEPARATOR);
        if home.last() == SEPARATOR {
            assert(pieces(home, SEPARATOR) == pieces(base, SEPARATOR).push(seq![]));
        }
        if climbs(path) {
            let all = pieces(path, SEPARATOR);
            let k = choose|k: int| 0 <= k < all.len() && all[k] == dot_dot();
            if k < pieces(base, SEPARATOR).len() {
                assert(pieces(home, SEPARATOR)[k] == dot_dot());
            } else {
                assert(pieces(relative, SEPARATOR)[k - pieces(base, SEPARATOR).len()]
                    == dot_dot());
            }
        }
    }
}

/// The only byte string that encodes a character as a separator byte is that of a separator.
proof fn lemma_separator_byte(c: char)
    requires
        encode_scalar(c as u32).contains(SEPARATOR),
    ensures
        c == '/',
{
    let u = c as u32;
    let bytes = encode_scalar(u);
    let i = choose|i: int| 0 <= i < bytes.len() && bytes[i] == SEPARATOR;
    assert(u <= 0x7fu32 ==> (u & 0x7Fu32) as u8 == u) by (bit_vector);
    assert((0xC0u8 | ((u >> 6u32) & 0x1Fu32) as u8) != 0x2fu8) by (bit_vector);
    assert((0xE0u8 | ((u >> 12u32) & 0x0Fu32) as u8) != 0x2fu8) by (bit_vector);
    assert((0xF0u8 | ((u >> 18u32) & 0x7u32) as u8) != 0x2fu8) by (bit_vector);
    assert((0x80u8 | (u & 0x3Fu32) as u8) != 0x2fu8) by (bit_vector);
    assert((0x80u8 | ((u >> 6u32) & 0x3Fu32) as u8) != 0x2fu8) by (bit_vector);
    assert((0x80u8 | ((u >> 12u32) & 0x3Fu32) as u8) != 0x2fu8) by (bit_vector);
}

/// A text without a slash is encoded without a separator byte.
proof fn lemma_no_separator(s: Seq<char>)
    requires
        !s.contains('/'),
    ensures
        !encode_utf8(s).contains(SEPARATOR),
    decreases s.len(),
{
    if s.len() > 0 {
        let rest = s.drop_first();
        assert forall|c: char| rest.contains(c) implies s.contains(c) by {
            let i = choose|i: int| 0 <= i < rest.len() && rest[i] == c;
            assert(s[i + 1] == c);
        }
        lemma_no_separator(rest);
        assert(s.contains(s[0]));
        if encode_utf8(s).contains(SEPARATOR) {
            let head = encode_scalar(s[0] as u32);
            let k = choose|k: int| 0 <= k < encode_utf8(s).len() && encode_utf8(s)[k] == SEPARATOR;
            if k < head.len() {
                assert(head[k] == SEPARATOR);
                lemma_separator_byte(s[0]);
            } else {
                assert(encode_utf8(rest)[k - head.len()] == SEPARATOR);
            }
        }
    }
}

/// One component that is not the parent directory does not climb.
proof fn lemma_component(s: Seq<char>)
    requires
        !s.contains('/'),
        s != seq!['.', '.'],
    ensures
        !climbs(encode_utf8(s)),
{
    lemma_no_separator(s);
    lemma_single_piece(encode_utf8(s), SEPARATOR);
    let dots = seq!['.', '.'];
    is_ascii_chars_encode_utf8(dots);
    assert(encode_utf8(dots) =~= dot_dot());
    encode_utf8_decode_utf8(s);
    encode_utf8_decode_utf8(dots);
}

/// Two paths that do not climb do not climb one behind the other.
proof fn lemma_joined(a: Seq<char>, b: Seq<char>)
    requires
        !climbs(encode_utf8(a)),
        !climbs(encode_utf8(b)),
    ensures
        !climbs(encode_utf8(a + seq!['/'] + b)),
{
    let slash = seq!['/'];
    is_ascii_chars_encode_utf8(slash);
    lemma_encode_concat(a + slash, b);
    lemma_encode_concat(a, slash);
    let x = encode_utf8(a);
    let y = encode_utf8(b);
    assert(encode_utf8(a + slash + b) =~= x.push(SEPARATOR) + y);
    lemma_pieces_concat(x, y, SEPARATOR);
    let all = pieces(x.push(SEPARATOR) + y, SEPARATOR);
    if all.contains(dot_dot()) {
        let k = choose|k: int| 0 <= k < all.len() && all[k] == dot_dot();
        if k < pieces(x, SEPARATOR).len() {
            assert(pieces(x, SEPARATOR)[k] == dot_dot());
        } else {
            assert(pieces(y, SEPARATOR)[k - pieces(x, SEPARATOR).len()] == dot_dot());
        }
    }
}

/// An identifier is one component of a path.
proof fn lemma_identifier_component(id: Seq<char>)
    requires
        is_identifier(id),
    ensures
        !climbs(encode_utf8(id)),
{
    if id.contains('/') {
        let i = choose|i: int| 0 <= i < id.len() && id[i] == '/';
        assert(is_hex_digit(id[i]));
    }
    lemma_component(id);
}

/// The path that a bridge reports for an upload is one that a proxy accepts: whatever file
/// name a file system can have, it resolves to a path below the home directory.
pub proof fn law_uploaded_path_is_accepted(
    session_id: Seq<char>,
    request_id: Seq<char>,
    name: Seq<char>,
)
    requires
        is_identifier(session_id),
        is_identifier(request_id),
        !name.contains('/'),
        name != seq!['.', '.'],
    ensures
        !escapes(encode_utf8(upload_directory(session_id, request_id) + "/"@ + name)),
{
    reveal_strlit(".cache/agentdrop/files/");
    reveal_strlit("/");
    reveal_strlit(".cache");
    reveal_strlit("agentdrop");
    reveal_strlit("files");
    let slash = seq!['/'];
    let path = upload_directory(session_id, request_id) + "/"@ + name;
    let p1 = ".cache"@ + slash + "agentdrop"@;
    let p2 = p1 + slash + "files"@;
    let p3 = p2 + slash + session_id;
    let p4 = p3 + slash + request_id;
    assert("/"@ =~= slash);
    assert(".cache/agentdrop/files/"@ =~= p2 + slash);
    assert(path =~= p4 + slash + name);
    lemma_component(".cache"@);
    lemma_component("agentdrop"@);
    lemma_component("files"@);
    lemma_identifier_component(session_id);
    lemma_identifier_component(request_id);
    lemma_component(name);
    lemma_joined(".cache"@, "agentdrop"@);
    lemma_joined(p1, "files"@);
    lemma_joined(p2, session_id);
    lemma_joined(p3, request_id);
    lemma_joined(p4, name);
    assert(path[0] == '.');
    let first = path[0] as u32;
    assert((0x2eu32 & 0x7Fu32) as u8 == 0x2eu8) by (bit_vector);
    assert(encode_utf8(path)[0] == encode_scalar(first)[0]);
}

/// What a bridge reports of an upload gets through to the Agent: the proxy takes the reply as
/// success, accepts the path in it, and resolves it to a path that starts with the home
/// directory and ends with the name of the file.
pub proof fn law_uploaded_file_is_delivered(
    session_id: Seq<char>,
    request_id: Seq<char>,
    name: Seq<char>,
    response: BridgeResponse,
    home: Seq<u8>,
)
    requires
        is_identifier(session_id),
        is_identifier(request_id),
        !name.contains('/'),
        name != seq!['.', '.'],
        response.version == PROTOCOL_VERSION,
        response.error is None,
        response.remote_relative_path matches Some(path) && path@ == upload_directory(
            session_id,
            request_id,
        ) + "/"@ + name,
    ensures
        ({
            let path = response.remote_relative_path->0;
            let bytes = encode_utf8(path@);
            &&& reply_result(as_upload_response(response)) == Ok::<_, BridgeError>(path)
            &&& !escapes(bytes)
            &&& home.is_prefix_of(below(home, bytes))
            &&& encode_utf8(name).is_suffix_of(below(home, bytes))
        }),
{
    let path = response.remote_relative_path->0@;
    let bytes = encode_utf8(path);
    let whole = below(home, bytes);
    law_uploaded_path_is_accepted(session_id, request_id, name);
    law_resolved_path_stays_below_home(home, bytes);
    lemma_encode_concat(upload_directory(session_id, request_id) + "/"@, name);
    let tail = encode_utf8(name);
    assert(whole.subrange(whole.len() - tail.len(), whole.len() as int) =~= tail);
}

/// Only files are uploaded that are named by an absolute path, exist and are regular, and
/// whose name is text.
pub proof fn law_only_local_files_are_uploaded<T>(local: LocalFile<T>)
    ensures
        refusal(local) is None <==> {
            &&& local.is_absolute
            &&& local.is_file
            &&& local.resolved matches Ok(file)
            &&& file.name is Some
        },
{
}

/// A file dropped onto the terminal is recognised: a path on one line, followed by the one
/// space that the terminal adds. A Windows path is taken for a local file in any case, another
/// absolute path unless the remote host has a file there.
pub proof fn law_drop_is_recognised(path: Seq<char>)
    requires
        path.len() > 0,
        forall|i: int| 0 <= i < path.len() ==> !is_line_end(#[trigger] path[i]),
        unquoted(path) == path,
    ensures
        pasted_path(path.push(' ')) == Some((path, true)),
        is_windows_absolute(path) ==> target_of(encode_utf8(path.push(' ')))
            == (TargetModel::Local { path, trailing_space: true }),
        path[0] == '/' ==> target_of(encode_utf8(path.push(' ')))
            == (TargetModel::LocalUnlessRemote { path, trailing_space: true }),
{
    let text = path.push(' ');
    assert(text.drop_last() =~= path);
    assert(without_line_end(text) == text);
    encode_utf8_valid_utf8(text);
    encode_utf8_decode_utf8(text);
}

/// Line ends behind a pasted text do not count.
pub proof fn law_line_ends_do_not_count(text: Seq<char>, end: char)
    requires
        is_line_end(end),
    ensures
        pasted_path(text.push(end)) == pasted_path(text),
{
    assert(text.push(end).drop_last() =~= text);
}

/// Quotes around a pasted path do not count, with or without a space behind them.
pub proof fn law_quotes_do_not_count(path: Seq<char>, quote: char)
    requires
        path.len() > 0,
        forall|i: int| 0 <= i < path.len() ==> !is_line_end(#[trigger] path[i]),
        quote == '\'' || quote == '"',
    ensures
        pasted_path(seq![quote] + path + seq![quote]) == Some((path, false)),
        pasted_path((seq![quote] + path + seq![quote]).push(' ')) == Some((path, true)),
{
    let text = seq![quote] + path + seq![quote];
    let spaced = text.push(' ');
    assert(text.subrange(1, text.len() - 1) =~= path);
    assert(spaced.drop_last() =~= text);
    assert forall|i: int| 0 <= i < text.len() implies !is_line_end(#[trigger] text[i]) by {
        if 0 < i < text.len() - 1 {
            assert(text[i] == path[i - 1]);
        }
    }
    assert(without_line_end(text) == text);
    assert(without_line_end(spaced) == spaced);
}

/// What trying one socket after the other comes to, from the one at `next` on: the socket at
/// which it ends, and what is done there.
pub open spec fn tried_from(replies: Seq<Result<String, BridgeError>>, next: int) -> (int, StepModel)
    decreases replies.len() - next,
    when 0 <= next < replies.len()
{
    match step_after(replies[next], next, replies.len() as int) {
        StepModel::Retry { next } => tried_from(replies, next),
        end => (next, end),
    }
}

/// An upload ends at the first socket that answers, or, where none does, at the last one with
/// its error.
pub proof fn law_first_answer_wins(replies: Seq<Result<String, BridgeError>>, next: int)
    requires
        0 <= next < replies.len(),
    ensures
        ({
            let (at, end) = tried_from(replies, next);
            &&& next <= at < replies.len()
            &&& forall|i: int| next <= i < at ==> #[trigger] replies[i] is Err
            &&& match replies[at] {
                Ok(path) => end == StepModel::Resolve(path),
                Err(error) => at == replies.len() - 1 && end == StepModel::Fail(error),
            }
        }),
    decreases replies.len() - next,
{
    if replies[next] is Err && next + 1 < replies.len() {
        law_first_answer_wins(replies, next + 1);
    }
}

/// No path in the list is the same as another.
pub open spec fn all_different(paths: Seq<Seq<u8>>) -> bool {
    forall|i: int, j: int|
        0 <= i < j < paths.len() ==> !same_path(#[trigger] paths[i], #[trigger] paths[j])
}

/// Adding what was found keeps what was known in front, leaves out nothing that was found,
/// and adds nothing twice.
proof fn lemma_with_new(known: Seq<Seq<u8>>, found: Seq<Seq<u8>>)
    requires
        all_different(known),
    ensures
        known.is_prefix_of(with_new(known, found)),
        forall|i: int|
            0 <= i < found.len() ==> is_known(with_new(known, found), #[trigger] found[i]),
        all_different(with_new(known, found)),
    decreases found.len(),
{
    if found.len() == 0 {
        assert(known.subrange(0, known.len() as int) =~= known);
    } else {
        let first = found.first();
        let rest = found.drop_first();
        let next = if is_known(known, first) {
            known
        } else {
            known.push(first)
        };
        let all = with_new(known, found);
        lemma_with_new(next, rest);
        assert(next.subrange(0, known.len() as int) =~= known);
        assert(all.subrange(0, known.len() as int) =~= next.subrange(0, known.len() as int)) by {
            assert(all.subrange(0, next.len() as int).subrange(0, known.len() as int)
                =~= all.subrange(0, known.len() as int));
        }
        assert(is_known(next, first)) by {
            if !is_known(known, first) {
                assert(same_path(next[known.len() as int], first));
            }
        }
        assert(is_known(all, first)) by {
            let k = choose|k: int| 0 <= k < next.len() && same_path(#[trigger] next[k], first);
            assert(all.subrange(0, next.len() as int)[k] == all[k]);
            assert(same_path(all[k], first));
        }
        assert forall|i: int| 0 <= i < found.len() implies is_known(all, #[trigger] found[i]) by {
            if i > 0 {
                assert(rest[i - 1] == found[i]);
            }
        }
    }
}

/// Every socket that was found and the one that last answered are among those to try, and none
/// is tried twice. Those that were found come first, in their order, whichever answered last:
/// where there are any, the first of them is tried first.
pub proof fn law_candidates_are_complete(found: Seq<Seq<u8>>, cached: Option<Seq<u8>>)
    ensures
        ({
            let sockets = candidate_sockets(found, cached);
            &&& with_new(seq![], found).is_prefix_of(sockets)
            &&& forall|i: int| 0 <= i < found.len() ==> is_known(sockets, #[trigger] found[i])
            &&& cached matches Some(socket) ==> is_known(sockets, socket)
            &&& all_different(sockets)
            &&& found.len() > 0 ==> sockets.len() > 0 && sockets.first() == found.first()
        }),
{
    let none = Seq::<Seq<u8>>::empty();
    let front = with_new(none, found);
    let back = as_list(cached);
    let sockets = candidate_sockets(found, cached);
    lemma_with_new(none, found);
    lemma_with_new(front, back);
    assert forall|i: int| 0 <= i < found.len() implies is_known(sockets, #[trigger] found[i]) by {
        assert(is_known(front, found[i]));
        let k = choose|k: int|
            0 <= k < front.len() && same_path(#[trigger] front[k], found[i]);
        assert(sockets.subrange(0, front.len() as int)[k] == sockets[k]);
        assert(same_path(sockets[k], found[i]));
    }
    if cached is Some {
        assert(is_known(sockets, back[0]));
    }
    if found.len() > 0 {
        let start = none.push(found.first());
        lemma_with_new(start, found.drop_first());
        assert(front == with_new(start, found.drop_first()));
        assert(front.subrange(0, 1)[0] == start[0]);
        assert(sockets.subrange(0, front.len() as int)[0] == front[0]);
    }
}

/// The newest bridge is tried first, whichever answered last: the first socket to try is that of
/// a bridge than which none is newer.
pub proof fn law_newest_bridge_is_tried_first(
    entries: Seq<DirectoryEntry>,
    order: Seq<int>,
    cached: Option<Seq<u8>>,
)
    requires
        is_bridge_order(entries, order),
        order.len() > 0,
    ensures
        ({
            let sockets = candidate_sockets(paths_in_order(entries, order), cached);
            let newest = entries[order[0]];
            &&& sockets.len() > 0
            &&& sockets.first() == newest.path@
            &&& is_bridge(newest)
            &&& forall|i: int|
                0 <= i < entries.len() && is_bridge(#[trigger] entries[i]) ==> !later(
                    entries[i].modified,
                    newest.modified,
                )
        }),
{
    law_candidates_are_complete(paths_in_order(entries, order), cached);
    assert(is_bridge(entries[order[0]]));
    assert forall|i: int| 0 <= i < entries.len() && is_bridge(#[trigger] entries[i]) implies !later(
        entries[i].modified,
        entries[order[0]].modified,
    ) by {
        assert(order.contains(i));
        let k = choose|k: int| 0 <= k < order.len() && order[k] == i;
        if k > 0 {
            assert(tried_before(entries, order[0], order[k]));
        }
    }
}

/// Uploads under different request identifiers go to different directories.
pub proof fn law_uploads_do_not_share_a_directory(
    session_id: Seq<char>,
    a: Seq<char>,
    b: Seq<char>,
)
    requires
        a != b,
    ensures
        upload_directory(session_id, a) != upload_directory(session_id, b),
{
    let front = ".cache/agentdrop/files/"@ + session_id + "/"@;
    let x = upload_directory(session_id, a);
    let y = upload_directory(session_id, b);
    assert(x.subrange(front.len() as int, x.len() as int) =~= a);
    assert(y.subrange(front.len() as int, y.len() as int) =~= b);
}

/// What an uploader knows of its remote directory after a series of runs of the command that
/// makes it. A run that it does not need changes nothing.
pub open spec fn known_after(runs: Seq<Result<CommandOutput, LaunchError>>) -> Option<Seq<char>>
    decreases runs.len(),
{
    if runs.len() == 0 {
        None
    } else {
        remembered(known_after(runs.drop_last()), runs.last())
    }
}

/// Runs that all failed leave nothing behind.
proof fn lemma_nothing_known(runs: Seq<Result<CommandOutput, LaunchError>>)
    requires
        forall|i: int| 0 <= i < runs.len() ==> made_directory(#[trigger] runs[i]) is Err,
    ensures
        known_after(runs) is None,
    decreases runs.len(),
{
    if runs.len() > 0 {
        assert(made_directory(runs[runs.len() - 1]) is Err);
        assert forall|i: int| 0 <= i < runs.drop_last().len() implies made_directory(
            #[trigger] runs.drop_last()[i],
        ) is Err by {
            assert(made_directory(runs[i]) is Err);
        }
        lemma_nothing_known(runs.drop_last());
    }
}

/// The remote directory is made once and then remembered: until a run succeeds nothing is known,
/// so the next upload needs another run; from the first that succeeds on, its directory is
/// known, whatever comes after it.
pub proof fn law_remote_directory_is_made_once(
    runs: Seq<Result<CommandOutput, LaunchError>>,
    first: int,
)
    requires
        0 <= first < runs.len(),
        made_directory(runs[first]) is Ok,
        forall|i: int| 0 <= i < first ==> made_directory(#[trigger] runs[i]) is Err,
    ensures
        forall|n: int|
            0 <= n <= first ==> known_after(#[trigger] runs.subrange(0, n)) is None,
        forall|n: int|
            first < n <= runs.len() ==> known_after(#[trigger] runs.subrange(0, n)) == Some(
                made_directory(runs[first])->Ok_0,
            ),
        forall|run: Result<CommandOutput, LaunchError>|
            #[trigger] ensured(known_after(runs), run) == made_directory(runs[first]),
{
    assert forall|n: int| 0 <= n <= first implies known_after(#[trigger] runs.subrange(0, n)) is None
        by {
        lemma_nothing_known(runs.subrange(0, n));
    }
    assert forall|n: int| first < n <= runs.len() implies known_after(
        #[trigger] runs.subrange(0, n),
    ) == Some(made_directory(runs[first])->Ok_0) by {
        lemma_directory_stays(runs, first, n);
    }
    assert(runs.subrange(0, runs.len() as int) =~= runs);
}

/// The first directory that was made is still known after `n` runs.
proof fn lemma_directory_stays(
    runs: Seq<Result<CommandOutput, LaunchError>>,
    first: int,
    n: int,
)
    requires
        0 <= first < n <= runs.len(),
        made_directory(runs[first]) is Ok,
        forall|i: int| 0 <= i < first ==> made_directory(#[trigger] runs[i]) is Err,
    ensures
        known_after(runs.subrange(0, n)) == Some(made_directory(runs[first])->Ok_0),
    decreases n,
{
    assert(runs.subrange(0, n).drop_last() =~= runs.subrange(0, n - 1));
    if n == first + 1 {
        lemma_nothing_known(runs.subrange(0, first));
    } else {
        lemma_directory_stays(runs, first, n - 1);
    }
}

} // verus!
