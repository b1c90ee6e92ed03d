//! Paths of the remote (Unix) host, as the bytes that the system knows.
use vstd::prelude::*;
use crate::text::pieces;

verus! {

/// The byte that separates the components of a path.
pub const SEPARATOR: u8 = 0x2f;

/// A single dot.
pub open spec fn dot() -> Seq<u8> {
    seq![0x2eu8]
}

/// Two dots: the parent directory.
pub open spec fn dot_dot() -> Seq<u8> {
    seq![0x2eu8, 0x2eu8]
}

/// A path that starts at the root.
pub open spec fn is_absolute(path: Seq<u8>) -> bool {
    path.len() > 0 && path[0] == SEPARATOR
}

/// A path that leads through a parent directory somewhere.
pub open spec fn climbs(path: Seq<u8>) -> bool {
    pieces(path, SEPARATOR).contains(dot_dot())
}

/// The pieces that count when paths are compared: repeated separators do not, and a dot only
/// where the path begins with it.
pub open spec fn significant(parts: Seq<Seq<u8>>) -> Seq<Seq<u8>>
    decreases parts.len(),
{
    if parts.len() == 0 {
        seq![]
    } else {
        let before = significant(parts.drop_last());
        let part = parts.last();
        if part.len() == 0 || (part == dot() && parts.len() > 1) {
            before
        } else {
            before.push(part)
        }
    }
}

/// Two ways to write the same path: both or neither start at the root, and the same
/// components follow.
pub open spec fn same_path(a: Seq<u8>, b: Seq<u8>) -> bool {
    &&& is_absolute(a) == is_absolute(b)
    &&& significant(pieces(a, SEPARATOR)) == significant(pieces(b, SEPARATOR))
}

/// `relative` below `base`: with one separator between them where `base` does not end in one.
pub open spec fn below(base: Seq<u8>, relative: Seq<u8>) -> Seq<u8> {
    if base.len() > 0 && base.last() != SEPARATOR {
        base.push(SEPARATOR) + relative
    } else {
        base + relative
    }
}

/// The models of a list of byte strings.
pub open spec fn byte_models(list: Seq<Vec<u8>>) -> Seq<Seq<u8>> {
    list.map_values(|bytes: Vec<u8>| bytes@)
}

/// Whether two byte strings are equal.
pub(crate) fn same_bytes(a: &Vec<u8>, b: &Vec<u8>) -> (same: bool)
    ensures
        same == (a@ == b@),
{
    let n: usize = a.len();
    if n != b.len() {
        return false;
    }
    let mut i: usize = 0;
    while i < n
        invariant
            n == a@.len(),
            n == b@.len(),
            i <= n,
            forall|j: int| 0 <= j < i ==> a@[j] == b@[j],
        decreases n - i,
    {
        if a[i] != b[i] {
            return false;
        }
        i = i + 1;
    }
    assert(a@ =~= b@);
    true
}

/// The pieces of a path between its separators.
fn split_path(path: &[u8]) -> (parts: Vec<Vec<u8>>)
    ensures
        byte_models(parts@) == pieces(path@, SEPARATOR),
{
    let n: usize = path.len();
    let mut parts: Vec<Vec<u8>> = Vec::new();
    let mut current: Vec<u8> = Vec::new();
    let mut i: usize = 0;
    proof {
        assert(path@.subrange(0, 0) =~= seq![]);
        assert(byte_models(parts@).push(current@) =~= seq![Seq::<u8>::empty()]);
    }
    while i < n
        invariant
            n == path@.len(),
            i <= n,
            pieces(path@.subrange(0, i as int), SEPARATOR) == byte_models(parts@).push(current@),
        decreases n - i,
    {
        let byte: u8 = path[i];
        let ghost before = byte_models(parts@).push(current@);
        let ghost finished = current@;
        proof {
            assert(path@.subrange(0, i + 1).drop_last() =~= path@.subrange(0, i as int));
            assert(path@.subrange(0, i + 1).last() == byte);
            assert(before.drop_last() =~= byte_models(parts@));
        }
        if byte == SEPARATOR {
            parts.push(current);
            current = Vec::new();
            proof {
                assert(byte_models(parts@) =~= before);
            }
        } else {
            current.push(byte);
        }
        i = i + 1;
    }
    assert(path@.subrange(0, n as int) =~= path@);
    let ghost done = byte_models(parts@).push(current@);
    parts.push(current);
    assert(byte_models(parts@) =~= done);
    parts
}

/// Whether a path starts at the root.
pub fn absolute(path: &[u8]) -> (yes: bool)
    ensures
        yes == is_absolute(path@),
{
    path.len() > 0 && path[0] == SEPARATOR
}

/// Whether a path leads through a parent directory somewhere.
pub fn has_parent_component(path: &[u8]) -> (yes: bool)
    ensures
        yes == climbs(path@),
{
    let parts: Vec<Vec<u8>> = split_path(path);
    let mut parent: Vec<u8> = Vec::new();
    parent.push(0x2e);
    parent.push(0x2e);
    assert(parent@ =~= dot_dot());
    let n: usize = parts.len();
    let mut i: usize = 0;
    while i < n
        invariant
            n == parts@.len(),
            parent@ == dot_dot(),
            byte_models(parts@) == pieces(path@, SEPARATOR),
            forall|j: int| 0 <= j < i ==> byte_models(parts@)[j] != dot_dot(),
        decreases n - i,
    {
        if same_bytes(&parts[i], &parent) {
            assert(byte_models(parts@)[i as int] == dot_dot());
            return true;
        }
        i = i + 1;
    }
    false
}

/// The components of a path that count when it is compared.
fn significant_parts(path: &[u8]) -> (kept: Vec<Vec<u8>>)
    ensures
        byte_models(kept@) == significant(pieces(path@, SEPARATOR)),
{
    let parts: Vec<Vec<u8>> = split_path(path);
    let ghost all = byte_models(parts@);
    let mut single: Vec<u8> = Vec::new();
    single.push(0x2e);
    assert(single@ =~= dot());
    let mut kept: Vec<Vec<u8>> = Vec::new();
    let mut first: bool = true;
    assert(byte_models(kept@) =~= seq![]);
    assert(all.subrange(0, 0) =~= seq![]);
    for part in it: parts.into_iter()
        invariant
            it.seq() == parts@,
            all == byte_models(parts@),
            single@ == dot(),
            first == (it.index() == 0),
            byte_models(kept@) == significant(all.subrange(0, it.index())),
    {
        let ghost k = it.index();
        let ghost before = byte_models(kept@);
        let ghost piece = part@;
        proof {
            assert(all.subrange(0, k + 1).drop_last() =~= all.subrange(0, k));
            assert(all.subrange(0, k + 1).last() == piece);
        }
        if part.len() > 0 && (first || !same_bytes(&part, &single)) {
            kept.push(part);
            assert(byte_models(kept@) =~= before.push(piece));
        }
        first = false;
    }
    assert(all.subrange(0, all.len() as int) =~= all);
    kept
}

/// Whether two byte strings name the same path.
pub fn paths_match(a: &[u8], b: &[u8]) -> (same: bool)
    ensures
        same == same_path(a@, b@),
{
    if absolute(a) != absolute(b) {
        return false;
    }
    let left: Vec<Vec<u8>> = significant_parts(a);
    let right: Vec<Vec<u8>> = significant_parts(b);
    let n: usize = left.len();
    if n != right.len() {
        assert(byte_models(left@).len() != byte_models(right@).len());
        return false;
    }
    let mut i: usize = 0;
    while i < n
        invariant
            n == left@.len(),
            n == right@.len(),
            i <= n,
            byte_models(left@) == significant(pieces(a@, SEPARATOR)),
            byte_models(right@) == significant(pieces(b@, SEPARATOR)),
            is_absolute(a@) == is_absolute(b@),
            forall|j: int| 0 <= j < i ==> byte_models(left@)[j] == byte_models(right@)[j],
        decreases n - i,
    {
        if !same_bytes(&left[i], &right[i]) {
            assert(byte_models(left@)[i as int] != byte_models(right@)[i as int]);
            return false;
        }
        i = i + 1;
    }
    assert(byte_models(left@) =~= byte_models(right@));
    true
}

/// `relative` below `base`.
pub(crate) fn join(base: &[u8], relative: &[u8]) -> (path: Vec<u8>)
    ensures
        path@ == below(base@, relative@),
{
    let mut path: Vec<u8> = Vec::new();
    path.extend_from_slice(base);
    if base.len() > 0 && base[base.len() - 1] != SEPARATOR {
        path.push(SEPARATOR);
    }
    path.extend_from_slice(relative);
    assert(path@ =~= below(base@, relative@));
    path
}

} // verus!
