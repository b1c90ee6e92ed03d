//! The remote end of the upload bridge: finding it, asking it, and making sense of its reply.
use vstd::prelude::*;
use vstd::utf8::encode_utf8;
use crate::path::{
    absolute, below, byte_models, climbs, has_parent_component, is_absolute, join, paths_match,
    same_path,
};
use crate::protocol::{UploadRequest, UploadResponse, PROTOCOL_VERSION};
use crate::text::{ends_with, starts_with, trim_end, trimmed_end};

verus! {

/// Why a dropped file could not be turned into a remote path.
#[derive(Debug, PartialEq, Eq)]
pub enum BridgeError {
    /// There is no bridge to ask.
    NoSocket,
    /// The bridge could not be talked to.
    Io(String),
    /// The bridge went away without an answer.
    Closed,
    /// The bridge speaks another version of the protocol.
    VersionMismatch,
    /// The bridge refused, for the reason it gave.
    Refused(String),
    /// The bridge claims success without saying where the file is.
    NoPath,
    /// The bridge named a path outside the home directory.
    UnsafePath(String),
    /// There is no home directory to resolve the path against.
    HomeNotSet,
}

/// The text of a bridge error.
pub open spec fn bridge_error_text(error: BridgeError) -> Seq<char> {
    match error {
        BridgeError::NoSocket =>
            "no agentdrop bridge socket found; connect with `agentdrop connect <host>`"@,
        BridgeError::Io(text) => text@,
        BridgeError::Closed => "upload bridge closed without a response"@,
        BridgeError::VersionMismatch => "upload bridge protocol mismatch"@,
        BridgeError::Refused(text) => text@,
        BridgeError::NoPath => "upload bridge returned no remote path"@,
        BridgeError::UnsafePath(path) => "bridge returned unsafe relative path: "@ + path@,
        BridgeError::HomeNotSet => "HOME is not set on remote host"@,
    }
}

impl BridgeError {
    /// The text of the error.
    pub fn message(&self) -> (text: String)
        ensures
            text@ == bridge_error_text(*self),
    {
        match self {
            BridgeError::NoSocket =>
                "no agentdrop bridge socket found; connect with `agentdrop connect <host>`".to_owned(),
            BridgeError::Io(text) => text.clone(),
            BridgeError::Closed => "upload bridge closed without a response".to_owned(),
            BridgeError::VersionMismatch => "upload bridge protocol mismatch".to_owned(),
            BridgeError::Refused(text) => text.clone(),
            BridgeError::NoPath => "upload bridge returned no remote path".to_owned(),
            BridgeError::UnsafePath(path) => {
                let mut text: String = "bridge returned unsafe relative path: ".to_owned();
                text.append(path.as_str());
                text
            },
            BridgeError::HomeNotSet => "HOME is not set on remote host".to_owned(),
        }
    }
}

/// The request to upload the file at a local path.
pub fn upload_request(local_path: &str) -> (request: UploadRequest)
    ensures
        request.version == PROTOCOL_VERSION,
        request.path@ == local_path@,
{
    UploadRequest { version: PROTOCOL_VERSION, path: local_path.to_owned() }
}

/// The JSON document in a reply line. A bridge that closed the connection sent an empty line;
/// white space at the end does not count.
pub fn response_document(line: &str) -> (document: Result<&str, BridgeError>)
    ensures
        line@.len() == 0 ==> document == Err::<&str, BridgeError>(BridgeError::Closed),
        line@.len() > 0 ==> (document matches Ok(text) && text@ == trimmed_end(line@)),
{
    if line.is_empty() {
        return Err(BridgeError::Closed);
    }
    Ok(trim_end(line))
}

/// What a reply comes to: one of another version is refused, then an error counts more than a
/// path.
pub open spec fn reply_result(response: UploadResponse) -> Result<String, BridgeError> {
    if response.version != PROTOCOL_VERSION {
        Err(BridgeError::VersionMismatch)
    } else {
        match (response.error, response.remote_relative_path) {
            (Some(error), _) => Err(BridgeError::Refused(error)),
            (None, Some(path)) => Ok(path),
            (None, None) => Err(BridgeError::NoPath),
        }
    }
}

/// The remote path in a reply, relative to the home directory.
pub fn request_upload(response: UploadResponse) -> (result: Result<String, BridgeError>)
    ensures
        result == reply_result(response),
{
    if response.version != PROTOCOL_VERSION {
        return Err(BridgeError::VersionMismatch);
    }
    match response.error {
        Some(error) => Err(BridgeError::Refused(error)),
        None => match response.remote_relative_path {
            Some(path) => Ok(path),
            None => Err(BridgeError::NoPath),
        },
    }
}

/// A path that does not have to stay below the directory it is resolved against.
pub open spec fn escapes(relative: Seq<u8>) -> bool {
    is_absolute(relative) || climbs(relative)
}

/// The remote path of an uploaded file: `relative` below the home directory. A path that
/// could lead out of it is refused before anything else is looked at.
pub fn resolve_remote_path(relative: &str, home: Option<Vec<u8>>) -> (path: Result<
    Vec<u8>,
    BridgeError,
>)
    ensures
        ({
            let bytes = encode_utf8(relative@);
            &&& escapes(bytes) ==> (path matches Err(BridgeError::UnsafePath(text)) && text@
                == relative@)
            &&& !escapes(bytes) ==> match home {
                None => path == Err::<Vec<u8>, BridgeError>(BridgeError::HomeNotSet),
                Some(home) => path matches Ok(path) && path@ == below(home@, bytes),
            }
        }),
{
    let bytes: &[u8] = relative.as_bytes();
    if absolute(bytes) || has_parent_component(bytes) {
        return Err(BridgeError::UnsafePath(relative.to_owned()));
    }
    match home {
        None => Err(BridgeError::HomeNotSet),
        Some(home) => Ok(join(&home, bytes)),
    }
}

/// What is known of one entry of the directory in which bridges have their sockets. An entry
/// whose name is not UTF-8 has none here; one that could not be looked at is no socket.
/// `modified` is when it last changed, in any unit that grows with time.
pub struct DirectoryEntry {
    pub name: Option<String>,
    pub is_socket: bool,
    pub modified: Option<i128>,
    pub path: Vec<u8>,
}

/// The name of a bridge socket.
pub open spec fn is_socket_name(name: Seq<char>) -> bool {
    "agentdrop-"@.is_prefix_of(name) && ".sock"@.is_suffix_of(name)
}

/// The socket of a bridge.
pub open spec fn is_bridge(entry: DirectoryEntry) -> bool {
    &&& entry.name matches Some(name)
    &&& is_socket_name(name@)
    &&& entry.is_socket
}

/// `a` is known to be later than `b`, or `a` is known and `b` is not.
pub open spec fn later(a: Option<i128>, b: Option<i128>) -> bool {
    match (a, b) {
        (Some(a), Some(b)) => a > b,
        (Some(_), None) => true,
        (None, _) => false,
    }
}

/// Entry `i` is tried before entry `j`: it is newer, or as new and found first.
pub open spec fn tried_before(entries: Seq<DirectoryEntry>, i: int, j: int) -> bool {
    ||| later(entries[i].modified, entries[j].modified)
    ||| !later(entries[j].modified, entries[i].modified) && i < j
}

/// `order` lists the entries that are bridges, each once, in the order in which they are
/// tried.
pub open spec fn is_bridge_order(entries: Seq<DirectoryEntry>, order: Seq<int>) -> bool {
    &&& forall|k: int|
        0 <= k < order.len() ==> 0 <= #[trigger] order[k] < entries.len() && is_bridge(
            entries[order[k]],
        )
    &&& forall|i: int|
        0 <= i < entries.len() && is_bridge(#[trigger] entries[i]) ==> order.contains(i)
    &&& forall|k: int, l: int|
        0 <= k < l < order.len() ==> tried_before(entries, #[trigger] order[k], #[trigger] order[l])
}

/// The paths of the listed entries.
pub open spec fn paths_in_order(entries: Seq<DirectoryEntry>, order: Seq<int>) -> Seq<Seq<u8>> {
    order.map_values(|i: int| entries[i].path@)
}

/// Whether `name` is the name of a bridge socket.
pub fn is_bridge_socket_name(name: &str) -> (yes: bool)
    ensures
        yes == is_socket_name(name@),
{
    starts_with(name, "agentdrop-") && ends_with(name, ".sock")
}

/// Whether `a` is later than `b`.
fn is_later(a: &Option<i128>, b: &Option<i128>) -> (yes: bool)
    ensures
        yes == later(*a, *b),
{
    match a {
        Some(x) => match b {
            Some(y) => *x > *y,
            None => true,
        },
        None => false,
    }
}

/// The sockets of all bridges in a directory, newest first; among equally new ones those
/// found first come first.
pub fn discover_bridge_sockets(entries: Vec<DirectoryEntry>) -> (sockets: Vec<Vec<u8>>)
    ensures
        exists|order: Seq<int>| #[trigger]
            is_bridge_order(entries@, order) && byte_models(sockets@) == paths_in_order(
                entries@,
                order,
            ),
{
    let mut times: Vec<Option<i128>> = Vec::new();
    let mut sockets: Vec<Vec<u8>> = Vec::new();
    let ghost mut order: Seq<int> = Seq::empty();
    let ghost all = entries@;
    assert(byte_models(sockets@) =~= paths_in_order(all, order));
    for entry in it: entries.into_iter()
        invariant
            it.seq() == all,
            times@.len() == order.len(),
            sockets@.len() == order.len(),
            byte_models(sockets@) == paths_in_order(all, order),
            forall|k: int|
                0 <= k < order.len() ==> 0 <= #[trigger] order[k] < it.index() && is_bridge(
                    all[order[k]],
                ) && times@[k] == all[order[k]].modified,
            forall|i: int|
                0 <= i < it.index() && is_bridge(#[trigger] all[i]) ==> order.contains(i),
            forall|k: int, l: int|
                0 <= k < l < order.len() ==> tried_before(
                    all,
                    #[trigger] order[k],
                    #[trigger] order[l],
                ),
    {
        let ghost i = it.index();
        assert(entry == all[i]);
        let named: bool = match &entry.name {
            Some(name) => is_bridge_socket_name(name.as_str()),
            None => false,
        };
        if named && entry.is_socket {
            let n: usize = times.len();
            let mut at: usize = 0;
            while at < n && !is_later(&entry.modified, &times[at])
                invariant
                    n == times@.len(),
                    at <= n,
                    forall|k: int| 0 <= k < at ==> !later(entry.modified, #[trigger] times@[k]),
                decreases n - at,
            {
                at = at + 1;
            }
            assert(at < n ==> later(entry.modified, times@[at as int]));
            let ghost before = order;
            let ghost listed = byte_models(sockets@);
            let ghost path = entry.path@;
            times.insert(at, entry.modified);
            sockets.insert(at, entry.path);
            proof {
                order = before.insert(at as int, i);
                assert(byte_models(sockets@) =~= listed.insert(at as int, path));
                assert(paths_in_order(all, order) =~= listed.insert(at as int, path));
                assert forall|k: int, l: int| 0 <= k < l < order.len() implies tried_before(
                    all,
                    #[trigger] order[k],
                    #[trigger] order[l],
                ) by {
                    let old_k = if k < at {
                        k
                    } else {
                        k - 1
                    };
                    let old_l = if l < at {
                        l
                    } else {
                        l - 1
                    };
                    if k != at {
                        assert(order[k] == before[old_k]);
                    }
                    if l != at {
                        assert(order[l] == before[old_l]);
                    }
                    if k == at && old_l != at {
                        assert(tried_before(all, before[at as int], before[old_l]));
                    }
                }
                assert forall|j: int| 0 <= j < i + 1 && is_bridge(
                    #[trigger] all[j],
                ) implies order.contains(j) by {
                    if j == i {
                        assert(order[at as int] == i);
                    } else {
                        assert(before.contains(j));
                        let k = choose|k: int| 0 <= k < before.len() && before[k] == j;
                        if k < at {
                            assert(order[k] == j);
                        } else {
                            assert(order[k + 1] == j);
                        }
                    }
                }
            }
        }
    }
    assert(is_bridge_order(all, order));
    sockets
}

/// Some path in `known` is the same as `path`.
pub open spec fn is_known(known: Seq<Seq<u8>>, path: Seq<u8>) -> bool {
    exists|k: int| 0 <= k < known.len() && same_path(#[trigger] known[k], path)
}

/// `known`, followed by the paths of `found` that are not in it yet.
pub open spec fn with_new(known: Seq<Seq<u8>>, found: Seq<Seq<u8>>) -> Seq<Seq<u8>>
    decreases found.len(),
{
    if found.len() == 0 {
        known
    } else if is_known(known, found.first()) {
        with_new(known, found.drop_first())
    } else {
        with_new(known.push(found.first()), found.drop_first())
    }
}

/// At most one path, as a list.
pub open spec fn as_list(path: Option<Seq<u8>>) -> Seq<Seq<u8>> {
    match path {
        Some(path) => seq![path],
        None => seq![],
    }
}

/// The sockets to try when a bridge has to be found: the `found` ones in their order, each
/// once, then the one that last answered, where it is not among them.
pub open spec fn candidate_sockets(found: Seq<Seq<u8>>, cached: Option<Seq<u8>>) -> Seq<Seq<u8>> {
    with_new(with_new(seq![], found), as_list(cached))
}

/// Where to look for a bridge.
#[derive(Debug, PartialEq, Eq)]
pub enum SocketLookup {
    /// At this socket and no other.
    Only(Vec<u8>),
    /// Wherever there is one.
    Scan,
}

/// The side of the bridge that asks for uploads. It remembers the socket that last answered.
pub struct BridgeClient {
    explicit_socket: Option<Vec<u8>>,
    cached_socket: Option<Vec<u8>>,
}

/// One upload that is being tried at one socket after the other.
pub struct UploadAttempt {
    sockets: Vec<Vec<u8>>,
    next: usize,
}

impl UploadAttempt {
    /// The sockets to try, in order.
    pub closed spec fn sockets(&self) -> Seq<Seq<u8>> {
        byte_models(self.sockets@)
    }

    /// The one whose turn it is.
    pub closed spec fn next(&self) -> int {
        self.next as int
    }

    /// It is always the turn of some socket.
    pub open spec fn wf(&self) -> bool {
        0 <= self.next() < self.sockets().len()
    }

    /// Starts with the first of `sockets`, if there is any.
    pub fn start(sockets: Vec<Vec<u8>>) -> (attempt: Result<UploadAttempt, BridgeError>)
        ensures
            match attempt {
                Ok(attempt) => {
                    &&& sockets@.len() > 0
                    &&& attempt.wf()
                    &&& attempt.sockets() == byte_models(sockets@)
                    &&& attempt.next() == 0
                },
                Err(error) => sockets@.len() == 0 && error == BridgeError::NoSocket,
            },
    {
        if sockets.is_empty() {
            return Err(BridgeError::NoSocket);
        }
        Ok(UploadAttempt { sockets, next: 0 })
    }

    /// The socket to try now.
    pub fn socket(&self) -> (socket: &Vec<u8>)
        requires
            self.wf(),
        ensures
            socket@ == self.sockets()[self.next()],
    {
        &self.sockets[self.next]
    }
}

/// The mathematical counterpart of [`UploadStep`].
pub enum StepModel {
    Resolve(String),
    Retry { next: int },
    Fail(BridgeError),
}

/// What to do after socket `next` of `count` was tried. The first that answers has the last
/// word; an error moves on to the next one, and at the last one it is final.
pub open spec fn step_after(
    reply: Result<String, BridgeError>,
    next: int,
    count: int,
) -> StepModel {
    match reply {
        Ok(path) => StepModel::Resolve(path),
        Err(error) => if next + 1 < count {
            StepModel::Retry { next: next + 1 }
        } else {
            StepModel::Fail(error)
        },
    }
}

/// What to do after a socket was tried.
pub enum UploadStep {
    /// The file is uploaded; resolve this path.
    Resolve(String),
    /// Try the next socket.
    Retry(UploadAttempt),
    /// No socket is left.
    Fail(BridgeError),
}

impl BridgeClient {
    /// The socket that this client was told to use.
    pub closed spec fn explicit(&self) -> Option<Seq<u8>> {
        match self.explicit_socket {
            Some(socket) => Some(socket@),
            None => None,
        }
    }

    /// The socket that last answered.
    pub closed spec fn cached(&self) -> Option<Seq<u8>> {
        match self.cached_socket {
            Some(socket) => Some(socket@),
            None => None,
        }
    }

    /// A client that uses the given socket, or finds one itself.
    pub fn new(explicit_socket: Option<Vec<u8>>) -> (client: Self)
        ensures
            client.explicit() == (match explicit_socket {
                Some(socket) => Some(socket@),
                None => None,
            }),
            client.cached() is None,
    {
        BridgeClient { explicit_socket, cached_socket: None }
    }

    /// Where to look for a bridge: the socket given to the client counts more than the one
    /// `configured` for the process, and either is the only one tried.
    pub fn lookup(&self, configured: Option<Vec<u8>>) -> (lookup: SocketLookup)
        ensures
            match self.explicit() {
                Some(socket) => lookup matches SocketLookup::Only(path) && path@ == socket,
                None => match configured {
                    Some(socket) => lookup == SocketLookup::Only(socket),
                    None => lookup == SocketLookup::Scan,
                },
            },
    {
        match &self.explicit_socket {
            Some(socket) => {
                let path: Vec<u8> = socket.clone();
                assert(path@ =~= socket@);
                SocketLookup::Only(path)
            },
            None => match configured {
                Some(socket) => SocketLookup::Only(socket),
                None => SocketLookup::Scan,
            },
        }
    }

    /// The sockets to try when a bridge has to be found: those that were discovered, in their
    /// order, then the one that last answered, where it is not among them.
    pub fn candidates(&self, discovered: Vec<Vec<u8>>) -> (sockets: Vec<Vec<u8>>)
        ensures
            byte_models(sockets@) == candidate_sockets(byte_models(discovered@), self.cached()),
    {
        let mut sockets: Vec<Vec<u8>> = Vec::new();
        let ghost none = Seq::<Seq<u8>>::empty();
        let ghost found = byte_models(discovered@);
        assert(byte_models(sockets@) =~= none);
        assert(found.subrange(0, found.len() as int) =~= found);
        for path in it: discovered.into_iter()
            invariant
                it.seq() == discovered@,
                found == byte_models(discovered@),
                with_new(none, found) == with_new(
                    byte_models(sockets@),
                    found.subrange(it.index(), found.len() as int),
                ),
        {
            let ghost rest = found.subrange(it.index(), found.len() as int);
            assert(rest.first() == path@);
            assert(rest.drop_first() =~= found.subrange(it.index() + 1, found.len() as int));
            push_new(&mut sockets, path);
        }
        assert(found.subrange(found.len() as int, found.len() as int) =~= seq![]);
        let ghost listed = byte_models(sockets@);
        match &self.cached_socket {
            Some(socket) => {
                let path: Vec<u8> = socket.clone();
                assert(path@ =~= socket@);
                push_new(&mut sockets, path);
                proof {
                    let last = as_list(self.cached());
                    assert(last.first() == socket@);
                    assert(last.drop_first() =~= seq![]);
                    assert(with_new(byte_models(sockets@), last.drop_first()) == byte_models(
                        sockets@,
                    ));
                    assert(with_new(listed, last) == byte_models(sockets@));
                }
            },
            None => {},
        }
        sockets
    }

    /// What to do after the socket whose turn it is was tried. The first that answers is
    /// remembered and its path is final; where none answers the last error counts.
    pub fn upload(&mut self, attempt: UploadAttempt, reply: Result<String, BridgeError>) -> (step:
        UploadStep)
        requires
            attempt.wf(),
        ensures
            final(self).explicit() == old(self).explicit(),
            final(self).cached() == (if reply is Ok {
                Some(attempt.sockets()[attempt.next()])
            } else {
                old(self).cached()
            }),
            match step_after(reply, attempt.next(), attempt.sockets().len() as int) {
                StepModel::Resolve(path) => step == UploadStep::Resolve(path),
                StepModel::Retry { next } => {
                    &&& step matches UploadStep::Retry(rest)
                    &&& rest.wf()
                    &&& rest.sockets() == attempt.sockets()
                    &&& rest.next() == next
                },
                StepModel::Fail(error) => step == UploadStep::Fail(error),
            },
    {
        match reply {
            Ok(path) => {
                let socket: Vec<u8> = attempt.sockets[attempt.next].clone();
                assert(socket@ =~= attempt.sockets@[attempt.next as int]@);
                self.cached_socket = Some(socket);
                UploadStep::Resolve(path)
            },
            Err(error) => if attempt.next < attempt.sockets.len() - 1 {
                UploadStep::Retry(
                    UploadAttempt { sockets: attempt.sockets, next: attempt.next + 1 },
                )
            } else {
                UploadStep::Fail(error)
            },
        }
    }
}

/// Adds `path` to `known`, where it is not in it yet.
fn push_new(known: &mut Vec<Vec<u8>>, path: Vec<u8>)
    ensures
        byte_models(final(known)@) == (if is_known(byte_models(old(known)@), path@) {
            byte_models(old(known)@)
        } else {
            byte_models(old(known)@).push(path@)
        }),
{
    if !contains_path(known, &path) {
        let ghost bytes = path@;
        known.push(path);
        assert(byte_models(known@) =~= byte_models(old(known)@).push(bytes));
    }
}

/// Whether some path in `known` is the same as `path`.
fn contains_path(known: &Vec<Vec<u8>>, path: &Vec<u8>) -> (yes: bool)
    ensures
        yes == is_known(byte_models(known@), path@),
{
    let n: usize = known.len();
    let mut i: usize = 0;
    while i < n
        invariant
            n == known@.len(),
            forall|k: int| 0 <= k < i ==> !same_path(#[trigger] byte_models(known@)[k], path@),
        decreases n - i,
    {
        if paths_match(&known[i], path) {
            assert(same_path(byte_models(known@)[i as int], path@));
            return true;
        }
        assert(!same_path(byte_models(known@)[i as int], path@));
        i = i + 1;
    }
    false
}

} // verus!
