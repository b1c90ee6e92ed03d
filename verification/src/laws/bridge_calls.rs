//! What calls on the remote side of a bridge give, stated of their arguments and results.
use vstd::prelude::*;
use vstd::utf8::encode_utf8;
use crate::bridge::{
    discover_bridge_sockets, is_bridge_order, is_bridge_socket_name, is_known, paths_in_order,
    request_upload, resolve_remote_path, response_document, upload_request, BridgeClient,
    BridgeError, DirectoryEntry, SocketLookup, UploadAttempt, UploadStep,
};
use crate::laws::paths::{
    law_byte_strings_are_what_they_hold, law_joined_path_is_both_paths,
    law_refused_paths_are_rooted_or_climb, parent_stands_at,
};
use crate::laws::sockets::{
    found_in_order, is_first, law_all_bridges_are_listed, law_candidates_are_those_found,
    law_reply_is_told_by_its_fields, law_times_never_grow, law_trying_moves_on_by_one,
};
use crate::laws::texts::{
    is_blank, law_bridge_errors_name_their_cause, law_trimmed_end_keeps_the_rest, says,
};
use crate::laws::{all_different, law_candidates_are_complete};
use crate::path::byte_models;
use crate::protocol::{UploadRequest, UploadResponse};

verus! {

/// The entry is a socket whose name begins with `agentdrop-` and ends with `.sock`.
pub open spec fn is_agentdrop_socket(entry: DirectoryEntry) -> bool {
    &&& entry.is_socket
    &&& entry.name matches Some(name)
    &&& "agentdrop-"@.is_prefix_of(name@)
    &&& ".sock"@.is_suffix_of(name@)
}

/// A time as a number that is less than any known time where it is not known.
pub open spec fn time_of(entry: DirectoryEntry) -> int {
    match entry.modified {
        Some(time) => time as int,
        None => i128::MIN as int - 1,
    }
}

/// `order` says where each listed path comes from.
pub open spec fn comes_from(
    sockets: Seq<Seq<u8>>,
    entries: Seq<DirectoryEntry>,
    order: Seq<int>,
) -> bool {
    &&& order.len() == sockets.len()
    &&& order.no_duplicates()
    &&& forall|i: int| #[trigger]
        order.contains(i) <==> 0 <= i < entries.len() && is_agentdrop_socket(entries[i])
    &&& forall|k: int| 0 <= k < sockets.len() ==> #[trigger] sockets[k] == entries[order[k]].path@
    &&& forall|k: int, l: int|
        0 <= k < l < order.len() ==> time_of(entries[#[trigger] order[k]]) > time_of(
            entries[#[trigger] order[l]],
        ) || (time_of(entries[order[k]]) == time_of(entries[order[l]]) && order[k] < order[l])
}

/// A search lists every bridge socket once, and nothing else, newest first: along the list the
/// times, as numbers, never grow, and equal times stand in the order of the directory.
pub proof fn law_search_lists_newest_first(entries: Vec<DirectoryEntry>, sockets: Vec<Vec<u8>>)
    requires
        call_ensures(discover_bridge_sockets, (entries,), sockets),
    ensures
        exists|order: Seq<int>| comes_from(byte_models(sockets@), entries@, order),
{
    let order = choose|order: Seq<int>| #[trigger]
        is_bridge_order(entries@, order) && byte_models(sockets@) == paths_in_order(
            entries@,
            order,
        );
    law_all_bridges_are_listed(entries@, order);
    assert forall|k: int, l: int| 0 <= k < l < order.len() implies time_of(
        entries@[#[trigger] order[k]],
    ) > time_of(entries@[#[trigger] order[l]]) || (time_of(entries@[order[k]]) == time_of(
        entries@[order[l]],
    ) && order[k] < order[l]) by {
        law_times_never_grow(entries@, order, k, l);
    }
    assert(comes_from(byte_models(sockets@), entries@, order));
}

/// Of two bridge sockets with known times the newer is listed in front of the older, wherever
/// they were found.
pub proof fn law_newer_stands_in_front(
    entries: Vec<DirectoryEntry>,
    sockets: Vec<Vec<u8>>,
    i: int,
    j: int,
)
    requires
        call_ensures(discover_bridge_sockets, (entries,), sockets),
        0 <= i < entries@.len(),
        0 <= j < entries@.len(),
        is_agentdrop_socket(entries@[i]),
        is_agentdrop_socket(entries@[j]),
        time_of(entries@[i]) > time_of(entries@[j]),
    ensures
        found_in_order(byte_models(sockets@), entries@[i].path@, entries@[j].path@),
{
    law_search_lists_newest_first(entries, sockets);
    let listed = byte_models(sockets@);
    let order = choose|order: Seq<int>| comes_from(listed, entries@, order);
    assert(order.contains(i) && order.contains(j));
    let k = choose|k: int| 0 <= k < order.len() && order[k] == i;
    let l = choose|l: int| 0 <= l < order.len() && order[l] == j;
    if l <= k {
        assert(l != k);
        assert(time_of(entries@[order[l]]) >= time_of(entries@[order[k]]));
    }
    assert(listed[k] == entries@[i].path@ && listed[l] == entries@[j].path@);
    assert(crate::laws::sockets::stand_in_order(
        listed,
        k,
        l,
        entries@[i].path@,
        entries@[j].path@,
    ));
}

/// The name of a bridge socket is told by its two ends.
pub proof fn law_socket_name_is_told(name: &str, yes: bool)
    requires
        call_ensures(is_bridge_socket_name, (name,), yes),
    ensures
        yes <==> "agentdrop-"@.is_prefix_of(name@) && ".sock"@.is_suffix_of(name@),
{
}

/// A client starts with the socket that it was given and has no other. A given socket counts
/// more than a configured one, and either is the only one.
pub proof fn law_given_socket_is_the_only_one(
    explicit_socket: Option<Vec<u8>>,
    client: BridgeClient,
    configured: Option<Vec<u8>>,
    lookup: SocketLookup,
)
    requires
        call_ensures(BridgeClient::new, (explicit_socket,), client),
        call_ensures(BridgeClient::lookup, (&client, configured), lookup),
    ensures
        client.cached() is None,
        match (explicit_socket, configured) {
            (Some(socket), _) => lookup matches SocketLookup::Only(path) && path@ == socket@,
            (None, Some(socket)) => lookup matches SocketLookup::Only(path) && path@ == socket@,
            (None, None) => lookup is Scan,
        },
{
}

/// The sockets to try are the discovered ones, in their order, and behind them at most the one
/// that last answered; each path is tried once, none is left out and none invented.
pub proof fn law_discovered_sockets_are_tried(
    client: BridgeClient,
    discovered: Vec<Vec<u8>>,
    sockets: Vec<Vec<u8>>,
)
    requires
        call_ensures(BridgeClient::candidates, (&client, discovered), sockets),
    ensures
        ({
            let found = byte_models(discovered@);
            let tried = byte_models(sockets@);
            &&& found.len() > 0 ==> tried.len() > 0 && tried[0] == found[0]
            &&& all_different(tried)
            &&& forall|i: int| 0 <= i < found.len() ==> is_known(tried, #[trigger] found[i])
            &&& forall|i: int|
                0 <= i < found.len() && is_first(found, i) ==> tried.contains(#[trigger] found[i])
            &&& client.cached() matches Some(socket) ==> is_known(tried, socket)
            &&& forall|k: int|
                0 <= k < tried.len() ==> found.contains(#[trigger] tried[k]) || (k == tried.len()
                    - 1 && client.cached() == Some(tried[k]))
            &&& forall|k: int, l: int|
                0 <= k < l < tried.len() - 1 ==> found_in_order(
                    found,
                    #[trigger] tried[k],
                    #[trigger] tried[l],
                )
        }),
{
    law_candidates_are_complete(byte_models(discovered@), client.cached());
    law_candidates_are_those_found(byte_models(discovered@), client.cached());
}

/// An attempt starts at the first socket, and there is none without a socket.
pub proof fn law_attempt_starts_at_the_first(
    sockets: Vec<Vec<u8>>,
    attempt: Result<UploadAttempt, BridgeError>,
    socket: &Vec<u8>,
)
    requires
        call_ensures(UploadAttempt::start, (sockets,), attempt),
        attempt matches Ok(started) ==> call_ensures(UploadAttempt::socket, (&started,), socket),
    ensures
        attempt is Ok <==> sockets@.len() > 0,
        attempt matches Err(error) ==> error is NoSocket,
        attempt is Ok ==> socket@ == sockets@[0]@,
        attempt matches Ok(started) ==> started.sockets() == byte_models(sockets@),
{
    law_byte_strings_are_what_they_hold(sockets@);
    if attempt is Ok {
        assert(byte_models(sockets@)[0] == sockets@[0]@);
    }
}

/// An answer is final, and its socket is remembered. An error moves on to the very next socket
/// of the same attempt, and is final at the last; nothing is remembered then.
pub proof fn law_answer_is_final(
    answered: &mut BridgeClient,
    refused: &mut BridgeClient,
    attempt: UploadAttempt,
    path: String,
    error: BridgeError,
    done: UploadStep,
    next: UploadStep,
)
    requires
        attempt.wf(),
        call_ensures(BridgeClient::upload, (answered, attempt, Ok(path)), done),
        call_ensures(BridgeClient::upload, (refused, attempt, Err(error)), next),
    ensures
        done == UploadStep::Resolve(path),
        final(answered).cached() == Some(attempt.sockets()[attempt.next()]),
        final(answered).explicit() == old(answered).explicit(),
        final(refused).cached() == old(refused).cached(),
        final(refused).explicit() == old(refused).explicit(),
        attempt.next() + 1 < attempt.sockets().len() ==> {
            &&& next matches UploadStep::Retry(rest)
            &&& rest.sockets() == attempt.sockets()
            &&& rest.next() == attempt.next() + 1
        },
        attempt.next() + 1 == attempt.sockets().len() ==> next == UploadStep::Fail(error),
{
    law_trying_moves_on_by_one(path, error, attempt.next(), attempt.sockets().len() as int);
}

/// A request names the path and version 1.
pub proof fn law_request_names_the_path(local_path: &str, request: UploadRequest)
    requires
        call_ensures(upload_request, (local_path,), request),
    ensures
        request.version == 1,
        request.path@ == local_path@,
{
}

/// A reply line is a closed connection exactly if it is empty; otherwise the document is the line
/// without the white space at its end.
pub proof fn law_reply_line_is_read(line: &str, document: Result<&str, BridgeError>)
    requires
        call_ensures(response_document, (line,), document),
    ensures
        document is Err <==> line@.len() == 0,
        document matches Err(error) ==> error is Closed,
        document matches Ok(text) ==> {
            &&& text@.is_prefix_of(line@)
            &&& is_blank(line@.subrange(text@.len() as int, line@.len() as int))
            &&& text@.len() > 0 ==> !crate::text::is_white_space(text@.last())
        },
{
    law_trimmed_end_keeps_the_rest(line@);
}

/// A reply gives its path exactly if it is of version 1 and holds a path and no error; its error
/// is passed on otherwise.
pub proof fn law_reply_gives_its_path(
    response: UploadResponse,
    result: Result<String, BridgeError>,
)
    requires
        call_ensures(request_upload, (response,), result),
    ensures
        result is Ok <==> response.version == 1 && response.error is None
            && response.remote_relative_path is Some,
        result is Ok ==> result->Ok_0 == response.remote_relative_path->0,
        response.version != 1 ==> result == Err::<String, _>(BridgeError::VersionMismatch),
        response.version == 1 && response.error is Some ==> result == Err::<String, _>(
            BridgeError::Refused(response.error->0),
        ),
        response.version == 1 && response.error is None && response.remote_relative_path is None
            ==> result == Err::<String, _>(BridgeError::NoPath),
{
    law_reply_is_told_by_its_fields(response);
}

/// A path is resolved exactly if it neither starts at the root nor has a component `..`, and
/// there is a home directory; it is then the home directory, a slash where that does not end in
/// one, and the path.
pub proof fn law_path_is_resolved_below_home(
    relative: &str,
    home: Option<Vec<u8>>,
    path: Result<Vec<u8>, BridgeError>,
)
    requires
        call_ensures(resolve_remote_path, (relative, home), path),
    ensures
        ({
            let bytes = encode_utf8(relative@);
            let refused = (bytes.len() > 0 && bytes[0] == 0x2f) || exists|i: int|
                parent_stands_at(bytes, i);
            &&& path is Ok <==> !refused && home is Some
            &&& refused ==> (path matches Err(BridgeError::UnsafePath(text)) && text@ == relative@)
            &&& !refused && home is None ==> path == Err::<Vec<u8>, _>(BridgeError::HomeNotSet)
            &&& path is Ok ==> {
                let resolved = path->Ok_0@;
                let base = home->0@;
                let gap = resolved.len() - base.len() - bytes.len();
                &&& base.is_prefix_of(resolved)
                &&& bytes.is_suffix_of(resolved)
                &&& gap == (if base.len() > 0 && base.last() != 0x2f {
                    1int
                } else {
                    0int
                })
                &&& gap == 1 ==> resolved[base.len() as int] == 0x2f
            }
        }),
{
    let bytes = encode_utf8(relative@);
    law_refused_paths_are_rooted_or_climb(bytes);
    if home is Some {
        law_joined_path_is_both_paths(home->0@, bytes);
    }
}

/// The text of a bridge error gives the reason word for word and an unsafe path whole.
pub proof fn law_bridge_error_gives_its_cause(error: BridgeError, text: String)
    requires
        call_ensures(BridgeError::message, (&error,), text),
    ensures
        match error {
            BridgeError::Io(reason) => text@ == reason@,
            BridgeError::Refused(reason) => text@ == reason@,
            BridgeError::UnsafePath(path) => says(
                text@,
                "bridge returned unsafe relative path: "@,
                path@,
            ),
            BridgeError::NoSocket => text@
                == "no agentdrop bridge socket found; connect with `agentdrop connect <host>`"@,
            BridgeError::Closed => text@ == "upload bridge closed without a response"@,
            BridgeError::VersionMismatch => text@ == "upload bridge protocol mismatch"@,
            BridgeError::NoPath => text@ == "upload bridge returned no remote path"@,
            BridgeError::HomeNotSet => text@ == "HOME is not set on remote host"@,
        },
{
    match error {
        BridgeError::Io(reason) => law_bridge_errors_name_their_cause(reason),
        BridgeError::Refused(reason) => law_bridge_errors_name_their_cause(reason),
        BridgeError::UnsafePath(path) => law_bridge_errors_name_their_cause(path),
        _ => {},
    }
}

} // verus!
