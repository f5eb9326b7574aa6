//! What holds of every walk: the pointer fields lie one behind the other,
//! and a rewrite changes nothing but them.

use crate::endian::{
    lemma_i32_round_trip, lemma_i64_round_trip, lemma_uint_bytes_len, pattern32, pattern64, splice,
    uint_bytes,
};
use crate::pptr::Pptr;
use crate::typetree::TreeModel;
use crate::walker::{
    array_shaped, count_at, kind_of, patch_one, patch_upto, pptr_at, replaced, visits, walk,
    walk_children, walk_node, walk_pairs, walk_repeat, NodeKind, Walked,
};
use vstd::prelude::*;

verus! {

/// Whether `longer` begins with `shorter`.
pub open spec fn begins_with(longer: Seq<usize>, shorter: Seq<usize>) -> bool {
    &&& shorter.len() <= longer.len()
    &&& forall|i: int| 0 <= i < shorter.len() ==> longer[i] == shorter[i]
}

/// Whether the positions from the `from`-th on lie in `lo..hi`, each with
/// room for a pointer, and each behind the pointer before it.
pub open spec fn spaced(pptrs: Seq<usize>, from: int, lo: int, hi: int) -> bool {
    &&& forall|k: int| from <= k < pptrs.len() ==> lo <= #[trigger] pptrs[k] && pptrs[k] + 12 <= hi
    &&& forall|j: int, k: int|
        from <= j < k < pptrs.len() ==> #[trigger] pptrs[j] + 12 <= #[trigger] pptrs[k]
}

/// What holds of a walk that succeeds: the cursor does not go back, the
/// pointers met before stay, and the new ones lie between the two cursors
/// and inside the bytes, one behind the other.
pub open spec fn orderly(acc: Seq<usize>, pos: int, len: nat, w: Walked) -> bool {
    &&& pos <= w.end
    &&& begins_with(w.pptrs, acc)
    &&& spaced(w.pptrs, acc.len() as int, pos, w.end)
    &&& spaced(w.pptrs, acc.len() as int, pos, len as int)
}

/// A walk that goes on where an orderly walk ended is orderly as a whole.
pub proof fn lemma_orderly_joined(
    acc: Seq<usize>,
    pos: int,
    len: nat,
    first: Walked,
    second: Walked,
)
    requires
        orderly(acc, pos, len, first),
        orderly(first.pptrs, first.end, len, second),
    ensures
        orderly(acc, pos, len, second),
{
    assert forall|k: int| acc.len() <= k < second.pptrs.len() implies pos
        <= #[trigger] second.pptrs[k] && second.pptrs[k] + 12 <= second.end && second.pptrs[k] + 12
        <= len by {
        if k < first.pptrs.len() {
            assert(second.pptrs[k] == first.pptrs[k]);
        }
    }
    assert forall|j: int, k: int| acc.len() <= j < k < second.pptrs.len() implies
        #[trigger] second.pptrs[j] + 12 <= #[trigger] second.pptrs[k] by {
        if k < first.pptrs.len() {
            assert(second.pptrs[j] == first.pptrs[j]);
            assert(second.pptrs[k] == first.pptrs[k]);
        } else if j < first.pptrs.len() {
            assert(second.pptrs[j] == first.pptrs[j]);
        }
    }
}

/// Padding and a later start keep a walk orderly.
pub proof fn lemma_orderly_widened(
    acc: Seq<usize>,
    pos: int,
    inner: int,
    len: nat,
    w: Walked,
    end: int,
)
    requires
        pos <= inner,
        orderly(acc, inner, len, w),
        w.end <= end,
    ensures
        orderly(acc, pos, len, Walked { end, pptrs: w.pptrs }),
{
}

/// A walk over one node that succeeds is orderly.
pub proof fn lemma_walk_node_orderly(
    node: TreeModel,
    bytes: Seq<u8>,
    pos: int,
    big: bool,
    scan: bool,
    acc: Seq<usize>,
)
    requires
        0 <= pos,
        bytes.len() <= usize::MAX,
        walk_node(node, bytes, pos, big, scan, acc) is Ok,
    ensures
        orderly(acc, pos, bytes.len(), walk_node(node, bytes, pos, big, scan, acc)->Ok_0),
    decreases node, 1nat, 0nat,
{
    let w = walk_node(node, bytes, pos, big, scan, acc)->Ok_0;
    match kind_of(node.ty) {
        NodeKind::Fixed(width) => {},
        NodeKind::Text => {},
        NodeKind::Dictionary => {
            let count = count_at(bytes, pos, big)->Ok_0;
            let pair = node.children[0].children[1];
            lemma_walk_pairs_orderly(pair, count, bytes, pos + 4, big, scan, acc);
            let inner = walk_pairs(pair, count, bytes, pos + 4, big, scan, acc)->Ok_0;
            lemma_orderly_widened(acc, pos, pos + 4, bytes.len(), inner, w.end);
        },
        NodeKind::Opaque => {},
        NodeKind::Other => {
            if array_shaped(node) {
                let array = node.children[0];
                let count = count_at(bytes, pos, big)->Ok_0;
                lemma_walk_repeat_orderly(array.children[1], count, bytes, pos + 4, big, scan, acc);
                let inner = walk_repeat(array.children[1], count, bytes, pos + 4, big, scan, acc)->Ok_0;
                lemma_orderly_widened(acc, pos, pos + 4, bytes.len(), inner, w.end);
            } else if visits(node, scan) {
                assert(w.pptrs == acc.push(pos as usize));
            } else {
                lemma_walk_children_orderly(node, 0, bytes, pos, big, scan, acc);
                let inner = walk_children(node, 0, bytes, pos, big, scan, acc)->Ok_0;
                lemma_orderly_widened(acc, pos, pos, bytes.len(), inner, w.end);
            }
        },
    }
}

/// A walk over the children of a node that succeeds is orderly.
pub proof fn lemma_walk_children_orderly(
    node: TreeModel,
    i: int,
    bytes: Seq<u8>,
    pos: int,
    big: bool,
    scan: bool,
    acc: Seq<usize>,
)
    requires
        0 <= pos,
        bytes.len() <= usize::MAX,
        walk_children(node, i, bytes, pos, big, scan, acc) is Ok,
    ensures
        orderly(acc, pos, bytes.len(), walk_children(node, i, bytes, pos, big, scan, acc)->Ok_0),
    decreases node, 0nat, node.children.len() - i,
{
    if 0 <= i < node.children.len() {
        lemma_walk_node_orderly(node.children[i], bytes, pos, big, scan, acc);
        let first = walk_node(node.children[i], bytes, pos, big, scan, acc)->Ok_0;
        lemma_walk_children_orderly(node, i + 1, bytes, first.end, big, scan, first.pptrs);
        let second = walk_children(node, i + 1, bytes, first.end, big, scan, first.pptrs)->Ok_0;
        lemma_orderly_joined(acc, pos, bytes.len(), first, second);
    }
}

/// A walk over the items of an array that succeeds is orderly.
pub proof fn lemma_walk_repeat_orderly(
    item: TreeModel,
    count: nat,
    bytes: Seq<u8>,
    pos: int,
    big: bool,
    scan: bool,
    acc: Seq<usize>,
)
    requires
        0 <= pos,
        bytes.len() <= usize::MAX,
        walk_repeat(item, count, bytes, pos, big, scan, acc) is Ok,
    ensures
        orderly(acc, pos, bytes.len(), walk_repeat(item, count, bytes, pos, big, scan, acc)->Ok_0),
    decreases item, 2nat, count,
{
    if count > 0 {
        lemma_walk_node_orderly(item, bytes, pos, big, scan, acc);
        let first = walk_node(item, bytes, pos, big, scan, acc)->Ok_0;
        lemma_walk_repeat_orderly(item, (count - 1) as nat, bytes, first.end, big, scan, first.pptrs);
        let second = walk_repeat(item, (count - 1) as nat, bytes, first.end, big, scan, first.pptrs)->Ok_0;
        lemma_orderly_joined(acc, pos, bytes.len(), first, second);
    }
}

/// A walk over the pairs of a map that succeeds is orderly.
pub proof fn lemma_walk_pairs_orderly(
    pair: TreeModel,
    count: nat,
    bytes: Seq<u8>,
    pos: int,
    big: bool,
    scan: bool,
    acc: Seq<usize>,
)
    requires
        0 <= pos,
        bytes.len() <= usize::MAX,
        walk_pairs(pair, count, bytes, pos, big, scan, acc) is Ok,
    ensures
        orderly(acc, pos, bytes.len(), walk_pairs(pair, count, bytes, pos, big, scan, acc)->Ok_0),
    decreases pair, 2nat, count,
{
    if count > 0 && pair.children.len() >= 2 {
        lemma_walk_node_orderly(pair.children[0], bytes, pos, big, scan, acc);
        let key = walk_node(pair.children[0], bytes, pos, big, scan, acc)->Ok_0;
        lemma_walk_node_orderly(pair.children[1], bytes, key.end, big, scan, key.pptrs);
        let value = walk_node(pair.children[1], bytes, key.end, big, scan, key.pptrs)->Ok_0;
        lemma_orderly_joined(acc, pos, bytes.len(), key, value);
        lemma_walk_pairs_orderly(pair, (count - 1) as nat, bytes, value.end, big, scan, value.pptrs);
        let rest = walk_pairs(pair, (count - 1) as nat, bytes, value.end, big, scan, value.pptrs)->Ok_0;
        lemma_orderly_joined(acc, pos, bytes.len(), value, rest);
    }
}

/// Whether the byte at `i` belongs to one of the pointers from the
/// `from`-th on.
pub open spec fn inside(pptrs: Seq<usize>, from: int, i: int) -> bool {
    exists|k: int| from <= k < pptrs.len() && #[trigger] pptrs[k] <= i && i < pptrs[k] + 12
}

/// Whether `a` and `b` are equally long and differ in `lo..hi` only inside
/// the pointers from the `from`-th on.
pub open spec fn differ_only_in(
    a: Seq<u8>,
    b: Seq<u8>,
    pptrs: Seq<usize>,
    from: int,
    lo: int,
    hi: int,
) -> bool {
    &&& a.len() == b.len()
    &&& forall|i: int|
        lo <= i < hi && 0 <= i < a.len() && #[trigger] a[i] != b[i] ==> inside(pptrs, from, i)
}

/// Bytes that differ only inside pointers that lie further on spell the
/// same count.
pub proof fn lemma_count_same(
    a: Seq<u8>,
    b: Seq<u8>,
    pos: int,
    big: bool,
    pptrs: Seq<usize>,
    from: int,
    hi: int,
)
    requires
        0 <= pos,
        pos + 4 <= hi || pos + 4 > a.len(),
        differ_only_in(a, b, pptrs, from, pos, hi),
        forall|k: int| from <= k < pptrs.len() ==> pos + 4 <= #[trigger] pptrs[k],
    ensures
        count_at(a, pos, big) == count_at(b, pos, big),
{
    if pos + 4 <= a.len() {
        assert forall|i: int| pos <= i < pos + 4 implies a[i] == b[i] by {
            if a[i] != b[i] {
                assert(inside(pptrs, from, i));
            }
        }
        assert(a.subrange(pos, pos + 4) =~= b.subrange(pos, pos + 4));
    }
}

/// Where two walks follow one another, bytes that differ only inside the
/// pointers of both differ in the stretch of each only inside its own.
pub proof fn lemma_differ_split(
    a: Seq<u8>,
    b: Seq<u8>,
    acc: Seq<usize>,
    pos: int,
    first: Walked,
    second: Walked,
    hi: int,
)
    requires
        orderly(acc, pos, a.len(), first),
        orderly(first.pptrs, first.end, a.len(), second),
        second.end <= hi,
        differ_only_in(a, b, second.pptrs, acc.len() as int, pos, hi),
    ensures
        differ_only_in(a, b, first.pptrs, acc.len() as int, pos, first.end),
        differ_only_in(a, b, second.pptrs, first.pptrs.len() as int, first.end, second.end),
{
    assert forall|i: int|
        pos <= i < first.end && 0 <= i < a.len() && #[trigger] a[i] != b[i] implies inside(
        first.pptrs,
        acc.len() as int,
        i,
    ) by {
        let k = choose|k: int|
            acc.len() <= k < second.pptrs.len() && #[trigger] second.pptrs[k] <= i && i
                < second.pptrs[k] + 12;
        if k >= first.pptrs.len() {
            assert(first.end <= second.pptrs[k]);
        } else {
            assert(first.pptrs[k] == second.pptrs[k]);
        }
    }
    assert forall|i: int|
        first.end <= i < second.end && 0 <= i < a.len() && #[trigger] a[i] != b[i] implies inside(
        second.pptrs,
        first.pptrs.len() as int,
        i,
    ) by {
        let k = choose|k: int|
            acc.len() <= k < second.pptrs.len() && #[trigger] second.pptrs[k] <= i && i
                < second.pptrs[k] + 12;
        if k < first.pptrs.len() {
            assert(first.pptrs[k] == second.pptrs[k]);
            assert(first.pptrs[k] + 12 <= first.end);
        }
    }
}

/// A walk over one node goes the same way over bytes that differ only
/// inside the pointers it meets.
pub proof fn lemma_walk_node_same(
    node: TreeModel,
    a: Seq<u8>,
    b: Seq<u8>,
    pos: int,
    big: bool,
    scan: bool,
    acc: Seq<usize>,
)
    requires
        0 <= pos,
        a.len() <= usize::MAX,
        walk_node(node, a, pos, big, scan, acc) is Ok,
        differ_only_in(
            a,
            b,
            walk_node(node, a, pos, big, scan, acc)->Ok_0.pptrs,
            acc.len() as int,
            pos,
            walk_node(node, a, pos, big, scan, acc)->Ok_0.end,
        ),
    ensures
        walk_node(node, b, pos, big, scan, acc) == walk_node(node, a, pos, big, scan, acc),
    decreases node, 1nat, 0nat,
{
    let w = walk_node(node, a, pos, big, scan, acc)->Ok_0;
    match kind_of(node.ty) {
        NodeKind::Fixed(width) => {},
        NodeKind::Text => {
            lemma_count_same(a, b, pos, big, w.pptrs, acc.len() as int, w.end);
        },
        NodeKind::Dictionary => {
            let count = count_at(a, pos, big)->Ok_0;
            let pair = node.children[0].children[1];
            let inner = walk_pairs(pair, count, a, pos + 4, big, scan, acc)->Ok_0;
            lemma_walk_pairs_orderly(pair, count, a, pos + 4, big, scan, acc);
            lemma_count_same(a, b, pos, big, w.pptrs, acc.len() as int, w.end);
            assert(inner.end <= w.end && differ_only_in(
                a,
                b,
                inner.pptrs,
                acc.len() as int,
                pos + 4,
                w.end,
            ));
            lemma_walk_pairs_same(pair, count, a, b, pos + 4, big, scan, acc);
        },
        NodeKind::Opaque => {},
        NodeKind::Other => {
            if array_shaped(node) {
                let array = node.children[0];
                let count = count_at(a, pos, big)->Ok_0;
                let inner = walk_repeat(array.children[1], count, a, pos + 4, big, scan, acc)->Ok_0;
                lemma_walk_repeat_orderly(array.children[1], count, a, pos + 4, big, scan, acc);
                lemma_count_same(a, b, pos, big, w.pptrs, acc.len() as int, w.end);
                assert(inner.end <= w.end && differ_only_in(
                    a,
                    b,
                    inner.pptrs,
                    acc.len() as int,
                    pos + 4,
                    w.end,
                ));
                lemma_walk_repeat_same(array.children[1], count, a, b, pos + 4, big, scan, acc);
            } else if visits(node, scan) {
            } else {
                let inner = walk_children(node, 0, a, pos, big, scan, acc)->Ok_0;
                lemma_walk_children_same(node, 0, a, b, pos, big, scan, acc);
            }
        },
    }
}

/// A walk over the children of a node goes the same way over bytes that
/// differ only inside the pointers it meets.
pub proof fn lemma_walk_children_same(
    node: TreeModel,
    i: int,
    a: Seq<u8>,
    b: Seq<u8>,
    pos: int,
    big: bool,
    scan: bool,
    acc: Seq<usize>,
)
    requires
        0 <= pos,
        a.len() <= usize::MAX,
        walk_children(node, i, a, pos, big, scan, acc) is Ok,
        differ_only_in(
            a,
            b,
            walk_children(node, i, a, pos, big, scan, acc)->Ok_0.pptrs,
            acc.len() as int,
            pos,
            walk_children(node, i, a, pos, big, scan, acc)->Ok_0.end,
        ),
    ensures
        walk_children(node, i, b, pos, big, scan, acc) == walk_children(
            node,
            i,
            a,
            pos,
            big,
            scan,
            acc,
        ),
    decreases node, 0nat, node.children.len() - i,
{
    if 0 <= i < node.children.len() {
        let first = walk_node(node.children[i], a, pos, big, scan, acc)->Ok_0;
        let second = walk_children(node, i + 1, a, first.end, big, scan, first.pptrs)->Ok_0;
        lemma_walk_node_orderly(node.children[i], a, pos, big, scan, acc);
        lemma_walk_children_orderly(node, i + 1, a, first.end, big, scan, first.pptrs);
        lemma_differ_split(a, b, acc, pos, first, second, second.end);
        lemma_walk_node_same(node.children[i], a, b, pos, big, scan, acc);
        lemma_walk_children_same(node, i + 1, a, b, first.end, big, scan, first.pptrs);
    }
}

/// A walk over the items of an array goes the same way over bytes that
/// differ only inside the pointers it meets.
pub proof fn lemma_walk_repeat_same(
    item: TreeModel,
    count: nat,
    a: Seq<u8>,
    b: Seq<u8>,
    pos: int,
    big: bool,
    scan: bool,
    acc: Seq<usize>,
)
    requires
        0 <= pos,
        a.len() <= usize::MAX,
        walk_repeat(item, count, a, pos, big, scan, acc) is Ok,
        exists|hi: int|
            walk_repeat(item, count, a, pos, big, scan, acc)->Ok_0.end <= hi && #[trigger] differ_only_in(
                a,
                b,
                walk_repeat(item, count, a, pos, big, scan, acc)->Ok_0.pptrs,
                acc.len() as int,
                pos,
                hi,
            ),
    ensures
        walk_repeat(item, count, b, pos, big, scan, acc) == walk_repeat(
            item,
            count,
            a,
            pos,
            big,
            scan,
            acc,
        ),
    decreases item, 2nat, count,
{
    if count > 0 {
        let w = walk_repeat(item, count, a, pos, big, scan, acc)->Ok_0;
        let hi = choose|hi: int|
            w.end <= hi && #[trigger] differ_only_in(a, b, w.pptrs, acc.len() as int, pos, hi);
        let first = walk_node(item, a, pos, big, scan, acc)->Ok_0;
        let second = walk_repeat(item, (count - 1) as nat, a, first.end, big, scan, first.pptrs)->Ok_0;
        lemma_walk_node_orderly(item, a, pos, big, scan, acc);
        lemma_walk_repeat_orderly(item, (count - 1) as nat, a, first.end, big, scan, first.pptrs);
        lemma_differ_split(a, b, acc, pos, first, second, hi);
        lemma_walk_node_same(item, a, b, pos, big, scan, acc);
        lemma_walk_repeat_same(item, (count - 1) as nat, a, b, first.end, big, scan, first.pptrs);
    }
}

/// A walk over the pairs of a map goes the same way over bytes that differ
/// only inside the pointers it meets.
pub proof fn lemma_walk_pairs_same(
    pair: TreeModel,
    count: nat,
    a: Seq<u8>,
    b: Seq<u8>,
    pos: int,
    big: bool,
    scan: bool,
    acc: Seq<usize>,
)
    requires
        0 <= pos,
        a.len() <= usize::MAX,
        walk_pairs(pair, count, a, pos, big, scan, acc) is Ok,
        exists|hi: int|
            walk_pairs(pair, count, a, pos, big, scan, acc)->Ok_0.end <= hi && #[trigger] differ_only_in(
                a,
                b,
                walk_pairs(pair, count, a, pos, big, scan, acc)->Ok_0.pptrs,
                acc.len() as int,
                pos,
                hi,
            ),
    ensures
        walk_pairs(pair, count, b, pos, big, scan, acc) == walk_pairs(
            pair,
            count,
            a,
            pos,
            big,
            scan,
            acc,
        ),
    decreases pair, 2nat, count,
{
    if count > 0 && pair.children.len() >= 2 {
        let w = walk_pairs(pair, count, a, pos, big, scan, acc)->Ok_0;
        let hi = choose|hi: int|
            w.end <= hi && #[trigger] differ_only_in(a, b, w.pptrs, acc.len() as int, pos, hi);
        let key = walk_node(pair.children[0], a, pos, big, scan, acc)->Ok_0;
        let value = walk_node(pair.children[1], a, key.end, big, scan, key.pptrs)->Ok_0;
        let rest = walk_pairs(pair, (count - 1) as nat, a, value.end, big, scan, value.pptrs)->Ok_0;
        lemma_walk_node_orderly(pair.children[0], a, pos, big, scan, acc);
        lemma_walk_node_orderly(pair.children[1], a, key.end, big, scan, key.pptrs);
        lemma_walk_pairs_orderly(pair, (count - 1) as nat, a, value.end, big, scan, value.pptrs);
        lemma_orderly_joined(acc, pos, a.len(), key, value);
        lemma_differ_split(a, b, acc, pos, value, rest, hi);
        lemma_differ_split(a, b, acc, pos, key, value, value.end);
        lemma_walk_node_same(pair.children[0], a, b, pos, big, scan, acc);
        lemma_walk_node_same(pair.children[1], a, b, key.end, big, scan, key.pptrs);
        lemma_walk_pairs_same(pair, (count - 1) as nat, a, b, value.end, big, scan, value.pptrs);
    }
}

/// The pointer after a rewrite: a pointer that is null stays; a local
/// pointer gets the new path id of its target, a pointer into another file
/// the new file id, each only where the maps name one.
pub open spec fn remapped_pptr(p: Pptr, paths: Map<i64, i64>, files: Map<i32, i32>) -> Pptr {
    if p.spec_is_null() {
        p
    } else if p.file_id == 0 {
        if paths.contains_key(p.path_id) {
            Pptr { file_id: 0, path_id: paths[p.path_id] }
        } else {
            p
        }
    } else if files.contains_key(p.file_id) {
        Pptr { file_id: files[p.file_id], path_id: p.path_id }
    } else {
        p
    }
}

/// A run of bytes that is put in changes its own place and nothing else.
pub proof fn lemma_splice(bytes: Seq<u8>, pos: int, patch: Seq<u8>)
    requires
        0 <= pos,
        pos + patch.len() <= bytes.len(),
    ensures
        splice(bytes, pos, patch).len() == bytes.len(),
        forall|i: int|
            0 <= i < bytes.len() && !(pos <= i < pos + patch.len()) ==> #[trigger] splice(
                bytes,
                pos,
                patch,
            )[i] == bytes[i],
        forall|i: int|
            pos <= i < pos + patch.len() ==> #[trigger] splice(bytes, pos, patch)[i] == patch[i - pos],
{
}

/// Bytes that agree where a pointer lies spell the same pointer there.
pub proof fn lemma_pptr_at_same(a: Seq<u8>, b: Seq<u8>, pos: int, big: bool)
    requires
        0 <= pos,
        pos + 12 <= a.len(),
        a.len() == b.len(),
        forall|i: int| pos <= i < pos + 12 ==> a[i] == b[i],
    ensures
        pptr_at(a, pos, big) == pptr_at(b, pos, big),
{
    assert(a.subrange(pos, pos + 4) =~= b.subrange(pos, pos + 4));
    assert(a.subrange(pos + 4, pos + 4 + 8) =~= b.subrange(pos + 4, pos + 4 + 8));
}

/// Remapping one pointer changes the bytes of that pointer and nothing
/// else, and the pointer reads as the remapped one afterwards.
pub proof fn lemma_patch_one(
    bytes: Seq<u8>,
    pos: int,
    paths: Map<i64, i64>,
    files: Map<i32, i32>,
    big: bool,
)
    requires
        0 <= pos,
        pos + 12 <= bytes.len(),
    ensures
        patch_one(bytes, pos, paths, files, big).len() == bytes.len(),
        forall|i: int|
            0 <= i < bytes.len() && !(pos <= i < pos + 12) ==> #[trigger] patch_one(
                bytes,
                pos,
                paths,
                files,
                big,
            )[i] == bytes[i],
        pptr_at(patch_one(bytes, pos, paths, files, big), pos, big) == remapped_pptr(
            pptr_at(bytes, pos, big),
            paths,
            files,
        ),
{
    let p = pptr_at(bytes, pos, big);
    let out = patch_one(bytes, pos, paths, files, big);
    if p.spec_is_null() {
    } else if p.file_id == 0 {
        if paths.contains_key(p.path_id) {
            let v = paths[p.path_id];
            let patch = uint_bytes(pattern64(v as int), 8, big);
            lemma_uint_bytes_len(pattern64(v as int), 8, big);
            lemma_splice(bytes, pos + 4, patch);
            lemma_i64_round_trip(bytes, pos + 4, v, big);
            assert(out.subrange(pos, pos + 4) =~= bytes.subrange(pos, pos + 4));
        }
    } else if files.contains_key(p.file_id) {
        let v = files[p.file_id];
        let patch = uint_bytes(pattern32(v as int), 4, big);
        lemma_uint_bytes_len(pattern32(v as int), 4, big);
        lemma_splice(bytes, pos, patch);
        lemma_i32_round_trip(bytes, pos, v, big);
        assert(out.subrange(pos + 4, pos + 4 + 8) =~= bytes.subrange(pos + 4, pos + 4 + 8));
    }
}

/// Remapping the first `n` pointers changes nothing but their bytes, and
/// each of them reads as the remapped one afterwards.
pub proof fn lemma_patch_upto(
    bytes: Seq<u8>,
    pptrs: Seq<usize>,
    n: int,
    paths: Map<i64, i64>,
    files: Map<i32, i32>,
    big: bool,
)
    requires
        0 <= n <= pptrs.len(),
        spaced(pptrs, 0, 0, bytes.len() as int),
    ensures
        patch_upto(bytes, pptrs, n, paths, files, big).len() == bytes.len(),
        forall|i: int|
            0 <= i < bytes.len() && #[trigger] bytes[i] != patch_upto(
                bytes,
                pptrs,
                n,
                paths,
                files,
                big,
            )[i] ==> exists|k: int| 0 <= k < n && #[trigger] pptrs[k] <= i && i < pptrs[k] + 12,
        forall|k: int|
            0 <= k < n ==> pptr_at(
                patch_upto(bytes, pptrs, n, paths, files, big),
                #[trigger] pptrs[k] as int,
                big,
            ) == remapped_pptr(pptr_at(bytes, pptrs[k] as int, big), paths, files),
    decreases n,
{
    if n > 0 {
        lemma_patch_upto(bytes, pptrs, n - 1, paths, files, big);
        let before = patch_upto(bytes, pptrs, n - 1, paths, files, big);
        let at = pptrs[n - 1] as int;
        let out = patch_upto(bytes, pptrs, n, paths, files, big);
        assert(out == patch_one(before, at, paths, files, big));
        lemma_patch_one(before, at, paths, files, big);
        assert forall|i: int| at <= i < at + 12 implies before[i] == bytes[i] by {
            if bytes[i] != before[i] {
                let k = choose|k: int| 0 <= k < n - 1 && #[trigger] pptrs[k] <= i && i < pptrs[k] + 12;
                assert(pptrs[k] + 12 <= pptrs[n - 1]);
            }
        }
        lemma_pptr_at_same(before, bytes, at, big);
        assert forall|i: int| 0 <= i < bytes.len() && #[trigger] bytes[i] != out[i] implies exists|
            k: int,
        | 0 <= k < n && #[trigger] pptrs[k] <= i && i < pptrs[k] + 12 by {
            if at <= i < at + 12 {
                assert(pptrs[n - 1] <= i && i < pptrs[n - 1] + 12);
            } else {
                assert(out[i] == before[i]);
                let k = choose|k: int| 0 <= k < n - 1 && #[trigger] pptrs[k] <= i && i < pptrs[k] + 12;
                assert(0 <= k < n && pptrs[k] <= i && i < pptrs[k] + 12);
            }
        }
        assert forall|k: int| 0 <= k < n implies pptr_at(out, #[trigger] pptrs[k] as int, big)
            == remapped_pptr(pptr_at(bytes, pptrs[k] as int, big), paths, files) by {
            if k < n - 1 {
                assert(pptrs[k] + 12 <= pptrs[n - 1]);
                lemma_pptr_at_same(out, before, pptrs[k] as int, big);
            }
        }
    }
}

/// A rewrite keeps the layout of an object: the bytes stay as many, only
/// the bytes of pointer fields change, a walk over the new bytes meets the
/// same fields at the same places, and each pointer reads as the remapped
/// one.
pub proof fn law_rewrite_keeps_layout(
    tree: TreeModel,
    bytes: Seq<u8>,
    paths: Map<i64, i64>,
    files: Map<i32, i32>,
    big: bool,
)
    requires
        bytes.len() <= usize::MAX,
        replaced(tree, bytes, paths, files, big) is Ok,
    ensures
        replaced(tree, bytes, paths, files, big)->Ok_0.len() == bytes.len(),
        walk(tree, replaced(tree, bytes, paths, files, big)->Ok_0, big, false) == walk(
            tree,
            bytes,
            big,
            false,
        ),
        forall|k: int|
            0 <= k < walk(tree, bytes, big, false)->Ok_0.pptrs.len() ==> pptr_at(
                replaced(tree, bytes, paths, files, big)->Ok_0,
                #[trigger] walk(tree, bytes, big, false)->Ok_0.pptrs[k] as int,
                big,
            ) == remapped_pptr(
                pptr_at(bytes, walk(tree, bytes, big, false)->Ok_0.pptrs[k] as int, big),
                paths,
                files,
            ),
        forall|i: int|
            0 <= i < bytes.len() && #[trigger] bytes[i] != replaced(
                tree,
                bytes,
                paths,
                files,
                big,
            )->Ok_0[i] ==> inside(walk(tree, bytes, big, false)->Ok_0.pptrs, 0, i),
{
    let w = walk(tree, bytes, big, false)->Ok_0;
    let out = replaced(tree, bytes, paths, files, big)->Ok_0;
    lemma_walk_node_orderly(tree, bytes, 0, big, false, Seq::empty());
    lemma_patch_upto(bytes, w.pptrs, w.pptrs.len() as int, paths, files, big);
    assert forall|i: int| 0 <= i < bytes.len() && #[trigger] bytes[i] != out[i] implies inside(
        w.pptrs,
        0,
        i,
    ) by {
        let k = choose|k: int|
            0 <= k < w.pptrs.len() && #[trigger] w.pptrs[k] <= i && i < w.pptrs[k] + 12;
        assert(0 <= k < w.pptrs.len() && w.pptrs[k] <= i && i < w.pptrs[k] + 12);
    }
    assert(differ_only_in(bytes, out, w.pptrs, 0, 0, w.end));
    lemma_walk_node_same(tree, bytes, out, 0, big, false, Seq::empty());
}

} // verus!
