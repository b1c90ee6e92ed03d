//! What holds of bridge sockets and of what a bridge answers.
use vstd::prelude::*;
use crate::bridge::{
    as_list, candidate_sockets, is_bridge, is_bridge_order, is_known, is_socket_name, later,
    paths_in_order, reply_result, step_after, tried_before, with_new, BridgeError, DirectoryEntry,
    StepModel,
};
use crate::path::same_path;
use crate::protocol::{version_of, BridgeRequest, UploadResponse};

verus! {

/// Newest first: of two listed sockets the one that stands first has the greater time, as a
/// number. Where the times are equal, or neither is known, the one that was found first stands
/// first; a known time stands before an unknown one.
pub proof fn law_times_never_grow(entries: Seq<DirectoryEntry>, order: Seq<int>, k: int, l: int)
    requires
        is_bridge_order(entries, order),
        0 <= k < l < order.len(),
    ensures
        match (entries[order[k]].modified, entries[order[l]].modified) {
            (Some(a), Some(b)) => a as int >= b as int && (a as int == b as int ==> order[k]
                < order[l]),
            (Some(_), None) => true,
            (None, Some(_)) => false,
            (None, None) => order[k] < order[l],
        },
{
    assert(tried_before(entries, order[k], order[l]));
}

/// Being later is being the greater number; a known time is later than an unknown one, which is
/// later than none.
pub proof fn law_later_is_greater(a: i128, b: i128)
    ensures
        later(Some(a), Some(b)) <==> a as int > b as int,
        later(Some(a), None),
        !later(None, Some(b)),
        !later(None, None),
{
}

/// Every socket whose name begins with `agentdrop-` and ends with `.sock` is listed, once, and
/// nothing else is. What is listed of an entry is its path.
pub proof fn law_all_bridges_are_listed(entries: Seq<DirectoryEntry>, order: Seq<int>)
    requires
        is_bridge_order(entries, order),
    ensures
        forall|i: int|
            #[trigger] order.contains(i) <==> {
                &&& 0 <= i < entries.len()
                &&& entries[i].is_socket
                &&& entries[i].name matches Some(name)
                &&& "agentdrop-"@.is_prefix_of(name@)
                &&& ".sock"@.is_suffix_of(name@)
            },
        order.no_duplicates(),
        paths_in_order(entries, order).len() == order.len(),
        forall|k: int|
            0 <= k < order.len() ==> #[trigger] paths_in_order(entries, order)[k]
                == entries[order[k]].path@,
{
    assert forall|i: int| #[trigger] order.contains(i) implies 0 <= i < entries.len() && is_bridge(
        entries[i],
    ) by {
        let k = choose|k: int| 0 <= k < order.len() && order[k] == i;
        assert(is_bridge(entries[order[k]]));
    }
    assert forall|k: int, l: int|
        0 <= k < order.len() && 0 <= l < order.len() && k != l implies order[k] != order[l] by {
        if k < l {
            assert(tried_before(entries, order[k], order[l]));
        } else {
            assert(tried_before(entries, order[l], order[k]));
        }
    }
}

/// The name of a bridge socket is told by its two ends, which do not overlap in any name that is
/// long enough for both.
pub proof fn law_socket_names_are_told_by_their_ends(name: Seq<char>)
    ensures
        is_socket_name(name) <==> "agentdrop-"@.is_prefix_of(name) && ".sock"@.is_suffix_of(name),
{
}

/// What is added to a list comes from what was found, in its order, and whatever was found there
/// first under its path is added as it was spelled.
proof fn lemma_added(known: Seq<Seq<u8>>, found: Seq<Seq<u8>>)
    ensures
        ({
            let all = with_new(known, found);
            let n = known.len() as int;
            &&& n <= all.len() <= n + found.len()
            &&& known.is_prefix_of(all)
            &&& forall|k: int| n <= k < all.len() ==> found.contains(#[trigger] all[k])
            &&& forall|k: int, l: int|
                n <= k < l < all.len() ==> found_in_order(
                    found,
                    #[trigger] all[k],
                    #[trigger] all[l],
                )
            &&& forall|i: int|
                0 <= i < found.len() && !is_known(known, #[trigger] found[i]) && is_first(found, i)
                    ==> all.contains(found[i])
        }),
    decreases found.len(),
{
    let all = with_new(known, found);
    let n = known.len() as int;
    if found.len() == 0 {
        assert(known.subrange(0, n) =~= known);
    } else {
        let first = found.first();
        let rest = found.drop_first();
        let next = if is_known(known, first) {
            known
        } else {
            known.push(first)
        };
        let m = next.len() as int;
        lemma_added(next, rest);
        assert(all == with_new(next, rest));
        assert(all.subrange(0, m) == next);
        assert(all.subrange(0, n) =~= known) by {
            assert(all.subrange(0, n) =~= all.subrange(0, m).subrange(0, n));
            assert(next.subrange(0, n) =~= known);
        }
        assert forall|k: int| n <= k < all.len() implies found.contains(#[trigger] all[k]) by {
            if k < m {
                assert(all.subrange(0, m)[k] == all[k]);
                assert(found[0] == all[k]);
            } else {
                assert(rest.contains(all[k]));
                let i = choose|i: int| 0 <= i < rest.len() && rest[i] == all[k];
                assert(found[i + 1] == all[k]);
            }
        }
        assert forall|k: int, l: int| n <= k < l < all.len() implies found_in_order(
            found,
            #[trigger] all[k],
            #[trigger] all[l],
        ) by {
            if k < m {
                assert(all.subrange(0, m)[k] == all[k]);
                assert(found[0] == all[k]);
                assert(rest.contains(all[l]));
                let j = choose|j: int| 0 <= j < rest.len() && rest[j] == all[l];
                assert(found[j + 1] == all[l]);
                assert(stand_in_order(found, 0, j + 1, all[k], all[l]));
            } else {
                assert(found_in_order(rest, all[k], all[l]));
                let (i, j) = choose|i: int, j: int| stand_in_order(rest, i, j, all[k], all[l]);
                assert(found[i + 1] == all[k] && found[j + 1] == all[l]);
                assert(stand_in_order(found, i + 1, j + 1, all[k], all[l]));
            }
        }
        assert forall|i: int|
            0 <= i < found.len() && !is_known(known, #[trigger] found[i]) && is_first(
                found,
                i,
            ) implies all.contains(found[i]) by {
            if i == 0 {
                assert(all.subrange(0, m)[n] == all[n]);
                assert(all[n] == found[0]);
            } else {
                assert(rest[i - 1] == found[i]);
                assert(!is_known(next, found[i])) by {
                    if is_known(next, found[i]) {
                        let k = choose|k: int|
                            0 <= k < next.len() && same_path(#[trigger] next[k], found[i]);
                        if k < n {
                            assert(same_path(known[k], found[i]));
                        } else {
                            assert(same_path(found[0], found[i]));
                        }
                    }
                }
                assert(is_first(rest, i - 1)) by {
                    assert forall|j: int| 0 <= j < i - 1 implies !same_path(
                        #[trigger] rest[j],
                        rest[i - 1],
                    ) by {
                        assert(!same_path(found[j + 1], found[i]));
                    }
                }
            }
        }
    }
}

/// `a` stands in `paths` at `i`, and `b` behind it at `j`.
pub open spec fn stand_in_order(
    paths: Seq<Seq<u8>>,
    i: int,
    j: int,
    a: Seq<u8>,
    b: Seq<u8>,
) -> bool {
    0 <= i < j < paths.len() && paths[i] == a && paths[j] == b
}

/// `a` stands before `b` in `paths`.
pub open spec fn found_in_order(paths: Seq<Seq<u8>>, a: Seq<u8>, b: Seq<u8>) -> bool {
    exists|i: int, j: int| stand_in_order(paths, i, j, a, b)
}

/// No path in front of the one at `i` is the same.
pub open spec fn is_first(paths: Seq<Seq<u8>>, i: int) -> bool {
    forall|j: int| 0 <= j < i ==> !same_path(#[trigger] paths[j], paths[i])
}

/// The sockets to try are those that were found, in their order and as they were spelled, and
/// behind them at most the one that last answered. None is invented.
pub proof fn law_candidates_are_those_found(found: Seq<Seq<u8>>, cached: Option<Seq<u8>>)
    ensures
        ({
            let sockets = candidate_sockets(found, cached);
            &&& forall|k: int|
                0 <= k < sockets.len() - 1 ==> found.contains(#[trigger] sockets[k])
            &&& sockets.len() > 0 ==> found.contains(sockets.last()) || cached == Some(
                sockets.last(),
            )
            &&& forall|k: int, l: int|
                0 <= k < l < sockets.len() - 1 ==> found_in_order(
                    found,
                    #[trigger] sockets[k],
                    #[trigger] sockets[l],
                )
            &&& forall|i: int|
                0 <= i < found.len() && is_first(found, i) ==> sockets.contains(
                    #[trigger] found[i],
                )
            &&& cached matches Some(socket) ==> is_known(found, socket) || sockets.contains(socket)
        }),
{
    let none = Seq::<Seq<u8>>::empty();
    let front = with_new(none, found);
    let back = as_list(cached);
    let sockets = candidate_sockets(found, cached);
    lemma_added(none, found);
    lemma_added(front, back);
    let n = front.len() as int;
    assert(sockets.len() <= n + 1);
    assert forall|k: int| 0 <= k < n implies #[trigger] sockets[k] == front[k] by {
        assert(sockets.subrange(0, n)[k] == sockets[k]);
    }
    assert forall|k: int| 0 <= k < n implies found.contains(#[trigger] sockets[k]) by {
        assert(found.contains(front[k]));
    }
    assert forall|k: int, l: int| 0 <= k < l < n implies found_in_order(
        found,
        #[trigger] sockets[k],
        #[trigger] sockets[l],
    ) by {
        assert(found_in_order(found, front[k], front[l]));
    }
    if sockets.len() > n {
        assert(back.contains(sockets[n]));
    }
    assert forall|i: int| 0 <= i < found.len() && is_first(found, i) implies sockets.contains(
        #[trigger] found[i],
    ) by {
        assert(!is_known(none, found[i]));
        assert(front.contains(found[i]));
        let k = choose|k: int| 0 <= k < front.len() && front[k] == found[i];
        assert(sockets[k] == found[i]);
    }
    if cached is Some {
        let socket = cached->0;
        if !is_known(found, socket) {
            if is_known(front, socket) {
                let k = choose|k: int| 0 <= k < front.len() && same_path(#[trigger] front[k], socket);
                assert(found.contains(front[k]));
                let i = choose|i: int| 0 <= i < found.len() && found[i] == front[k];
                assert(same_path(found[i], socket));
            }
            assert(back[0] == socket);
            assert(is_first(back, 0));
            assert(sockets.contains(back[0]));
        }
    }
}

/// One answer ends the trying and its path is passed on; an error moves on by exactly one
/// socket, and at the last socket it is passed on.
pub proof fn law_trying_moves_on_by_one(path: String, error: BridgeError, next: int, count: int)
    ensures
        step_after(Ok(path), next, count) == StepModel::Resolve(path),
        next < count - 1 ==> step_after(Err(error), next, count) == (StepModel::Retry {
            next: next + 1,
        }),
        next >= count - 1 ==> step_after(Err(error), next, count) == StepModel::Fail(error),
{
}

/// What a reply comes to is told by its fields: the version first, then the error, then the
/// path, each passed on as it is.
pub proof fn law_reply_is_told_by_its_fields(response: UploadResponse)
    ensures
        response.version != 1 ==> reply_result(response) == Err::<String, _>(
            BridgeError::VersionMismatch,
        ),
        response.version == 1 ==> match response.error {
            Some(error) => reply_result(response) == Err::<String, _>(BridgeError::Refused(error)),
            None => match response.remote_relative_path {
                Some(path) => reply_result(response) == Ok::<_, BridgeError>(path),
                None => reply_result(response) == Err::<String, _>(BridgeError::NoPath),
            },
        },
{
}

/// The version of a request is the number that it names.
pub proof fn law_version_is_the_one_named(version: u32, path: String)
    ensures
        version_of(BridgeRequest::UploadPath { version, path }) == version,
        version_of(BridgeRequest::ClipboardImage { version }) == version,
{
}

} // verus!
