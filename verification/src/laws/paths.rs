//! What holds of remote paths, in terms of their bytes.
use vstd::prelude::*;
use crate::bridge::escapes;
use crate::path::{
    below, byte_models, climbs, dot, dot_dot, is_absolute, same_path, significant, SEPARATOR,
};
use crate::text::{
    lemma_pieces_concat, lemma_pieces_nonempty, lemma_single_piece, pieces,
};

verus! {

/// A component `..` stands in `path` at `i`: two dots with a slash or an end of the path on
/// either side.
pub open spec fn parent_stands_at(path: Seq<u8>, i: int) -> bool {
    &&& 0 <= i <= path.len() - 2
    &&& path[i] == 0x2e
    &&& path[i + 1] == 0x2e
    &&& i == 0 || path[i - 1] == 0x2f
    &&& i + 2 == path.len() || path[i + 2] == 0x2f
}

/// Where the last piece of a path begins.
spec fn last_start(path: Seq<u8>) -> int
    decreases path.len(),
{
    if path.len() == 0 {
        0
    } else if path.last() == 0x2f {
        path.len() as int
    } else {
        last_start(path.drop_last())
    }
}

/// The last piece is what stands behind the last slash.
proof fn lemma_last_piece(path: Seq<u8>)
    ensures
        0 <= last_start(path) <= path.len(),
        last_start(path) == 0 || path[last_start(path) - 1] == 0x2f,
        forall|j: int| last_start(path) <= j < path.len() ==> path[j] != 0x2f,
        pieces(path, SEPARATOR).len() > 0,
        pieces(path, SEPARATOR).last() == path.subrange(last_start(path), path.len() as int),
    decreases path.len(),
{
    if path.len() == 0 {
        assert(path.subrange(0, 0) =~= seq![]);
    } else {
        let front = path.drop_last();
        lemma_last_piece(front);
        if path.last() == 0x2f {
            assert(path.subrange(path.len() as int, path.len() as int) =~= seq![]);
        } else {
            let k = last_start(path);
            assert forall|j: int| k <= j < path.len() implies path[j] != 0x2f by {
                if j < front.len() {
                    assert(front[j] == path[j]);
                }
            }
            assert(front.subrange(k, front.len() as int).push(path.last()) =~= path.subrange(
                k,
                path.len() as int,
            ));
        }
    }
}

/// A piece before the last is `..` exactly if the component stands in front of some slash.
proof fn lemma_earlier_pieces(path: Seq<u8>)
    ensures
        pieces(path, SEPARATOR).drop_last().contains(dot_dot()) <==> exists|i: int|
            #[trigger] parent_stands_at(path, i) && i + 2 < path.len(),
    decreases path.len(),
{
    lemma_last_piece(path);
    let parts = pieces(path, SEPARATOR);
    if path.len() == 0 {
        assert(parts.drop_last() =~= seq![]);
    } else {
        let front = path.drop_last();
        let before = pieces(front, SEPARATOR);
        lemma_last_piece(front);
        lemma_earlier_pieces(front);
        if path.last() == 0x2f {
            assert(parts.drop_last() =~= before);
            if before.contains(dot_dot()) {
                let k = choose|k: int| 0 <= k < before.len() && before[k] == dot_dot();
                if k < before.len() - 1 {
                    assert(before.drop_last()[k] == dot_dot());
                    let i = choose|i: int|
                        #[trigger] parent_stands_at(front, i) && i + 2 < front.len();
                    assert(parent_stands_at(path, i));
                } else {
                    let start = last_start(front);
                    let piece = front.subrange(start, front.len() as int);
                    assert(piece.len() == 2 && piece[0] == 0x2e && piece[1] == 0x2e);
                    assert(parent_stands_at(path, start));
                }
            }
            if exists|i: int| #[trigger] parent_stands_at(path, i) && i + 2 < path.len() {
                let i = choose|i: int| #[trigger] parent_stands_at(path, i) && i + 2 < path.len();
                if i + 2 < front.len() {
                    assert(parent_stands_at(front, i));
                    let k = choose|k: int|
                        0 <= k < before.drop_last().len() && before.drop_last()[k] == dot_dot();
                    assert(before[k] == dot_dot());
                } else {
                    let start = last_start(front);
                    assert(start == i) by {
                        if start < i {
                            assert(front[i - 1] != 0x2f);
                        }
                        if start > i {
                            assert(front[start - 1] == 0x2f);
                        }
                    }
                    assert(before.last() =~= dot_dot());
                    assert(before[before.len() - 1] == dot_dot());
                }
            }
        } else {
            assert(parts.drop_last() =~= before.drop_last());
            assert forall|i: int| i + 2 < path.len() implies #[trigger] parent_stands_at(path, i)
                == (parent_stands_at(front, i) && i + 2 < front.len()) by {}
            if exists|i: int| #[trigger] parent_stands_at(front, i) && i + 2 < front.len() {
                let i = choose|i: int| #[trigger] parent_stands_at(front, i) && i + 2 < front.len();
                assert(parent_stands_at(path, i));
            }
        }
    }
}

/// A path climbs exactly if `..` is one of its components.
pub proof fn law_climbing_is_a_parent_component(path: Seq<u8>)
    ensures
        climbs(path) <==> exists|i: int| parent_stands_at(path, i),
{
    let parts = pieces(path, SEPARATOR);
    lemma_last_piece(path);
    lemma_earlier_pieces(path);
    let start = last_start(path);
    let last = path.subrange(start, path.len() as int);
    if climbs(path) {
        let k = choose|k: int| 0 <= k < parts.len() && parts[k] == dot_dot();
        if k < parts.len() - 1 {
            assert(parts.drop_last()[k] == dot_dot());
        } else {
            assert(last.len() == 2 && last[0] == 0x2e && last[1] == 0x2e);
            assert(parent_stands_at(path, start));
        }
    }
    if exists|i: int| parent_stands_at(path, i) {
        let i = choose|i: int| parent_stands_at(path, i);
        if i + 2 < path.len() {
            let k = choose|k: int|
                0 <= k < parts.drop_last().len() && parts.drop_last()[k] == dot_dot();
            assert(parts[k] == dot_dot());
        } else {
            assert(start == i) by {
                if start < i {
                    assert(path[i - 1] != 0x2f);
                }
                if start > i {
                    assert(path[start - 1] == 0x2f);
                }
            }
            assert(last =~= dot_dot());
            assert(parts[parts.len() - 1] == dot_dot());
        }
    }
}

/// The paths that are refused are those that start at the root and those with a component `..`,
/// and no others.
pub proof fn law_refused_paths_are_rooted_or_climb(path: Seq<u8>)
    ensures
        is_absolute(path) <==> path.len() > 0 && path[0] == 0x2f,
        escapes(path) <==> (path.len() > 0 && path[0] == 0x2f) || exists|i: int|
            parent_stands_at(path, i),
{
    law_climbing_is_a_parent_component(path);
}

/// A path below a directory is the directory, one slash where it does not end in one, and the
/// path.
pub proof fn law_joined_path_is_both_paths(base: Seq<u8>, relative: Seq<u8>)
    ensures
        ({
            let path = below(base, relative);
            let gap = path.len() - base.len() - relative.len();
            &&& base.is_prefix_of(path)
            &&& relative.is_suffix_of(path)
            &&& gap == (if base.len() > 0 && base.last() != 0x2f {
                1int
            } else {
                0int
            })
            &&& gap == 1 ==> path[base.len() as int] == 0x2f
        }),
{
    let path = below(base, relative);
    assert(path.subrange(0, base.len() as int) =~= base);
    assert(path.subrange(path.len() - relative.len(), path.len() as int) =~= relative);
}

/// A list of byte strings is what its byte strings are, one by one.
pub proof fn law_byte_strings_are_what_they_hold(list: Seq<Vec<u8>>)
    ensures
        byte_models(list).len() == list.len(),
        forall|i: int| 0 <= i < list.len() ==> #[trigger] byte_models(list)[i] == list[i]@,
{
}

/// A piece that counts wherever it stands behind the first: not empty and not a single dot.
pub open spec fn counts(part: Seq<u8>) -> bool {
    part.len() > 0 && part != seq![0x2eu8]
}

/// Of the pieces of a path those count, in their order, that are not empty and not a single dot;
/// the first counts unless it is empty.
pub proof fn law_pieces_that_count(parts: Seq<Seq<u8>>)
    requires
        parts.len() > 0,
    ensures
        significant(parts) == (if parts[0].len() > 0 {
            seq![parts[0]]
        } else {
            seq![]
        }) + parts.drop_first().filter(|part: Seq<u8>| counts(part)),
    decreases parts.len(),
{
    reveal(Seq::filter);
    let kept = |part: Seq<u8>| counts(part);
    let front = parts.drop_last();
    let tail = parts.drop_first();
    if parts.len() == 1 {
        assert(front =~= seq![]);
        assert(tail =~= seq![]);
        assert(significant(front) =~= seq![]);
        assert(tail.filter(kept) =~= seq![]);
        assert(significant(parts) =~= (if parts[0].len() > 0 {
            seq![parts[0]]
        } else {
            seq![]
        }) + tail.filter(kept));
    } else {
        law_pieces_that_count(front);
        assert(front.drop_first() =~= tail.drop_last());
        assert(tail.last() == parts.last());
        assert(significant(parts) =~= (if parts[0].len() > 0 {
            seq![parts[0]]
        } else {
            seq![]
        }) + tail.filter(kept));
    }
}

/// Pieces behind others count by themselves.
proof fn lemma_significant_concat(front: Seq<Seq<u8>>, back: Seq<Seq<u8>>)
    requires
        front.len() > 0,
    ensures
        significant(front + back) == significant(front) + back.filter(|part: Seq<u8>| counts(part)),
{
    let kept = |part: Seq<u8>| counts(part);
    let whole = front + back;
    law_pieces_that_count(whole);
    law_pieces_that_count(front);
    assert(whole.drop_first() =~= front.drop_first() + back);
    Seq::filter_distributes_over_add(front.drop_first(), back, kept);
    assert(significant(whole) =~= significant(front) + back.filter(kept));
}

/// Two sockets in one directory are the same path exactly if they have the same name.
pub proof fn law_names_tell_paths_apart(directory: Seq<u8>, a: Seq<u8>, b: Seq<u8>)
    requires
        counts(a) && !a.contains(0x2f),
        counts(b) && !b.contains(0x2f),
    ensures
        same_path(directory.push(0x2f) + a, directory.push(0x2f) + b) <==> a == b,
{
    lemma_named(directory, a);
    lemma_named(directory, b);
    let base = significant(pieces(directory, SEPARATOR));
    if base.push(a) == base.push(b) {
        assert(base.push(a).last() == base.push(b).last());
    }
}

/// The last component of a path that ends in a name.
proof fn lemma_named(directory: Seq<u8>, name: Seq<u8>)
    requires
        counts(name) && !name.contains(0x2f),
    ensures
        significant(pieces(directory.push(0x2f) + name, SEPARATOR)) == significant(
            pieces(directory, SEPARATOR),
        ).push(name),
{
    lemma_pieces_nonempty(directory, SEPARATOR);
    lemma_pieces_concat(directory, name, SEPARATOR);
    lemma_single_piece(name, SEPARATOR);
    let parts = pieces(directory, SEPARATOR) + seq![name];
    assert(parts.drop_last() =~= pieces(directory, SEPARATOR));
}

/// How a path is spelled does not matter: a doubled slash and a component `.` between two others
/// leave it the same path, and only a path from the root is the same as one from the root.
pub proof fn law_spelling_does_not_matter(a: Seq<u8>, b: Seq<u8>)
    ensures
        same_path(a, a),
        same_path(a, b) ==> is_absolute(a) == is_absolute(b) && same_path(b, a),
        same_path(a.push(0x2f) + b, a.push(0x2f).push(0x2f) + b),
        same_path(a.push(0x2f) + b, a.push(0x2f).push(0x2e).push(0x2f) + b),
{
    let kept = |part: Seq<u8>| counts(part);
    let first = pieces(a, SEPARATOR);
    let second = pieces(b, SEPARATOR);
    let plain = a.push(0x2f) + b;
    let doubled = a.push(0x2f).push(0x2f) + b;
    let dotted = a.push(0x2f).push(0x2e).push(0x2f) + b;
    lemma_pieces_nonempty(a, SEPARATOR);
    lemma_pieces_concat(a, b, SEPARATOR);
    lemma_pieces_concat(a.push(0x2f), b, SEPARATOR);
    lemma_pieces_concat(a.push(0x2f).push(0x2e), b, SEPARATOR);
    let empty = Seq::<u8>::empty();
    assert(a.push(0x2f).drop_last() =~= a);
    assert(pieces(a.push(0x2f), SEPARATOR) =~= first.push(empty));
    assert(a.push(0x2f).push(0x2e).drop_last() =~= a.push(0x2f));
    assert(first.push(empty).drop_last() =~= first);
    assert(empty.push(0x2e) =~= dot());
    assert(pieces(a.push(0x2f).push(0x2e), SEPARATOR) =~= first.push(dot()));
    lemma_significant_concat(first, second);
    lemma_significant_concat(first.push(empty), second);
    lemma_significant_concat(first.push(dot()), second);
    assert(first.push(dot()).drop_last() =~= first);
    assert(significant(first.push(empty)) == significant(first));
    assert(significant(first.push(dot())) == significant(first));
    assert(is_absolute(plain) == is_absolute(doubled));
    assert(is_absolute(plain) == is_absolute(dotted));
}

} // verus!
