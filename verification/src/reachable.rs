//! Which objects of a scene are reached from a selection through pointers.

use crate::error::RepackError;
use crate::fxmap::{fx_get, fx_insert, fx_new};
use crate::idset::{id_set_insert, id_set_new};
use crate::pptr::{PathId, Pptr};
use crate::serialized::{ObjectInfo, SerializedFile};
use crate::typetree::TypeTreeNode;
use crate::typetree_cache::TypeTreeCache;
use crate::walker::{trace_pptrs, traced};
use rustc_hash::FxHashMap;
use std::collections::{BTreeSet, VecDeque};
use vstd::prelude::*;
use vstd::slice::slice_subrange;
use vstd::std_specs::hash::obeys_key_model;

verus! {

/// Where each path id stands among the first `n` objects. Of several
/// objects with one path id the last counts.
pub open spec fn object_index(objects: Seq<ObjectInfo>, n: int) -> Map<PathId, usize>
    decreases n,
{
    if n <= 0 {
        Map::empty()
    } else {
        object_index(objects, n - 1).insert(objects[n - 1].path_id, (n - 1) as usize)
    }
}

/// The index holds exactly the path ids of the objects, and leads each to an
/// object that bears it.
pub proof fn lemma_object_index(objects: Seq<ObjectInfo>, n: int)
    requires
        0 <= n <= objects.len(),
        objects.len() <= usize::MAX,
    ensures
        object_index(objects, n).dom().finite(),
        forall|id: PathId| #[trigger]
            object_index(objects, n).contains_key(id) ==> object_index(objects, n)[id] < n
                && objects[object_index(objects, n)[id] as int].path_id == id,
        forall|i: int|
            0 <= i < n ==> object_index(objects, n).contains_key((#[trigger] objects[i]).path_id),
    decreases n,
{
    if n > 0 {
        lemma_object_index(objects, n - 1);
        let before = object_index(objects, n - 1);
        let now = object_index(objects, n);
        assert forall|i: int| 0 <= i < n implies now.contains_key((#[trigger] objects[i]).path_id) by {
            if i < n - 1 {
                assert(before.contains_key(objects[i].path_id));
            }
        }
    }
}

/// Builds the index from path ids to positions in the object table.
pub fn index_objects(objects: &Vec<ObjectInfo>) -> (index: FxHashMap<PathId, usize>)
    ensures
        index@ == object_index(objects@, objects@.len() as int),
{
    broadcast use vstd::std_specs::hash::group_hash_axioms;

    let mut index: FxHashMap<PathId, usize> = fx_new();
    assert(index@ =~= object_index(objects@, 0));
    let mut i: usize = 0;
    while i < objects.len()
        invariant
            i <= objects.len(),
            obeys_key_model::<i64>(),
            index@ == object_index(objects@, i as int),
        decreases objects.len() - i,
    {
        fx_insert(&mut index, objects[i].path_id, i);
        i += 1;
    }
    index
}

/// The type tree by which an object is scanned: the one that its type
/// carries, else the one of its class.
pub open spec fn scan_tree(file: &SerializedFile, cache: &TypeTreeCache, info: ObjectInfo)
    -> Option<TypeTreeNode> {
    if 0 <= info.type_id < file.types@.len() && file.types@[info.type_id as int].type_tree is Some {
        file.types@[info.type_id as int].type_tree
    } else {
        cache.tree_of(info.class_id)
    }
}

/// The pointers that the object with the path id holds, as a scan finds
/// them: every pointer that is not null, but for the one to the father.
#[verifier::opaque]
pub open spec fn scan_of(
    file: &SerializedFile,
    data: Seq<u8>,
    cache: &TypeTreeCache,
    path_id: PathId,
) -> Result<Seq<Pptr>, RepackError> {
    let index = object_index(file.objects@, file.objects@.len() as int);
    if !index.contains_key(path_id) {
        Err(RepackError::MissingObject(path_id))
    } else {
        let info = file.objects@[index[path_id] as int];
        match scan_tree(file, cache, info) {
            None => Err(RepackError::MissingType(info.class_id)),
            Some(tree) => if !(0 <= info.offset && info.offset + info.size <= data.len()) {
                Err(RepackError::Parse)
            } else {
                match traced(
                    tree@,
                    data.subrange(info.offset as int, info.offset + info.size),
                    file.endianness.spec_is_big(),
                ) {
                    Err(e) => Err(RepackError::spec_from_walk(e)),
                    Ok(found) => Ok(found),
                }
            },
        }
    }
}

/// Whether one of the pointers is local and leads to `id`.
pub open spec fn local_target(found: Seq<Pptr>, id: PathId) -> bool {
    exists|k: int| 0 <= k < found.len() && (#[trigger] found[k]).file_id == 0 && found[k].path_id == id
}

/// Whether the object `a` holds a local pointer to `b`.
pub open spec fn points_to(
    file: &SerializedFile,
    data: Seq<u8>,
    cache: &TypeTreeCache,
    a: PathId,
    b: PathId,
) -> bool {
    scan_of(file, data, cache, a) is Ok && local_target(scan_of(file, data, cache, a)->Ok_0, b)
}

/// Whether the `i`-th object of the chain is pointed at by the one before it.
pub open spec fn linked(
    file: &SerializedFile,
    data: Seq<u8>,
    cache: &TypeTreeCache,
    chain: Seq<PathId>,
    i: int,
) -> bool {
    points_to(file, data, cache, chain[i - 1], chain[i])
}

/// Whether the chain starts at one of `from` and goes on along local
/// pointers.
pub open spec fn leads(
    file: &SerializedFile,
    data: Seq<u8>,
    cache: &TypeTreeCache,
    from: Seq<PathId>,
    chain: Seq<PathId>,
) -> bool {
    &&& chain.len() > 0
    &&& from.contains(chain[0])
    &&& forall|i: int| 0 < i < chain.len() ==> #[trigger] linked(file, data, cache, chain, i)
}

/// Whether `id` is one of `from` or reached from one of them along local
/// pointers.
pub open spec fn reaches(
    file: &SerializedFile,
    data: Seq<u8>,
    cache: &TypeTreeCache,
    from: Seq<PathId>,
    id: PathId,
) -> bool {
    exists|chain: Seq<PathId>| #[trigger]
        leads(file, data, cache, from, chain) && chain.last() == id
}

/// Scans one object for the pointers it holds.
pub fn reachable_one(
    file: &SerializedFile,
    index: &FxHashMap<PathId, usize>,
    data: &[u8],
    tpk: &TypeTreeCache,
    from: PathId,
) -> (r: Result<Vec<Pptr>, RepackError>)
    requires
        index@ == object_index(file.objects@, file.objects@.len() as int),
    ensures
        match r {
            Ok(found) => scan_of(file, data@, tpk, from) == Ok::<Seq<Pptr>, RepackError>(found@),
            Err(e) => scan_of(file, data@, tpk, from) == Err::<Seq<Pptr>, RepackError>(e),
        },
{
    broadcast use vstd::std_specs::hash::group_hash_axioms;

    reveal(scan_of);
    let len: usize = file.objects.len();
    proof {
        lemma_object_index(file.objects@, file.objects@.len() as int);
    }
    let at: usize = match fx_get(index, &from) {
        Some(i) => *i,
        None => {
            return Err(RepackError::MissingObject(from));
        },
    };
    let info = file.objects[at];
    let own: Option<&TypeTreeNode> = if info.type_id >= 0 && (info.type_id as usize)
        < file.types.len() {
        match &file.types[info.type_id as usize].type_tree {
            Some(tree) => Some(tree),
            None => None,
        }
    } else {
        None
    };
    let tt: &TypeTreeNode = match own {
        Some(tree) => tree,
        None => match tpk.get_typetree_node(info.class_id) {
            Some(tree) => tree,
            None => {
                return Err(RepackError::MissingType(info.class_id));
            },
        },
    };
    let total: usize = data.len();
    if info.offset < 0 || info.offset as u64 > total as u64 || info.size as u64 > total as u64
        - info.offset as u64 {
        return Err(RepackError::Parse);
    }
    let start: usize = info.offset as usize;
    let end: usize = start + info.size as usize;
    match trace_pptrs(tt, slice_subrange(data, start, end), file.endianness) {
        Err(e) => Err(RepackError::from_walk(e)),
        Ok(found) => Ok(found),
    }
}

/// An object that can be scanned stands in the object table.
pub proof fn lemma_scanned_is_object(
    file: &SerializedFile,
    data: Seq<u8>,
    cache: &TypeTreeCache,
    id: PathId,
)
    requires
        scan_of(file, data, cache, id) is Ok,
    ensures
        object_index(file.objects@, file.objects@.len() as int).contains_key(id),
{
    reveal(scan_of);
}

/// Whether every local pointer that the object holds leads into the set.
pub open spec fn targets_within(
    file: &SerializedFile,
    data: Seq<u8>,
    cache: &TypeTreeCache,
    id: PathId,
    set: Set<PathId>,
) -> bool {
    forall|b: PathId| #[trigger] points_to(file, data, cache, id, b) ==> set.contains(b)
}

/// Whether the set is closed: every object in it can be scanned, and every
/// local pointer of it leads into the set again.
pub open spec fn closed(file: &SerializedFile, data: Seq<u8>, cache: &TypeTreeCache, set: Set<PathId>)
    -> bool {
    forall|id: PathId| #[trigger]
        set.contains(id) ==> scan_of(file, data, cache, id) is Ok && targets_within(
            file,
            data,
            cache,
            id,
            set,
        )
}

/// A closed set that holds the starting points holds every object of a
/// chain that leads on from them.
pub proof fn lemma_closed_holds_chain(
    file: &SerializedFile,
    data: Seq<u8>,
    cache: &TypeTreeCache,
    from: Seq<PathId>,
    set: Set<PathId>,
    chain: Seq<PathId>,
    i: int,
)
    requires
        closed(file, data, cache, set),
        forall|k: int| 0 <= k < from.len() ==> set.contains(#[trigger] from[k]),
        leads(file, data, cache, from, chain),
        0 <= i < chain.len(),
    ensures
        set.contains(chain[i]),
    decreases i,
{
    if i > 0 {
        lemma_closed_holds_chain(file, data, cache, from, set, chain, i - 1);
        assert(linked(file, data, cache, chain, i));
        assert(targets_within(file, data, cache, chain[i - 1], set));
    } else {
        let k = choose|k: int| 0 <= k < from.len() && from[k] == chain[0];
        assert(set.contains(from[k]));
    }
}

/// What is pointed at from what is reached is reached.
pub proof fn lemma_reaches_step(
    file: &SerializedFile,
    data: Seq<u8>,
    cache: &TypeTreeCache,
    from: Seq<PathId>,
    a: PathId,
    b: PathId,
)
    requires
        reaches(file, data, cache, from, a),
        points_to(file, data, cache, a, b),
    ensures
        reaches(file, data, cache, from, b),
{
    let chain = choose|chain: Seq<PathId>| #[trigger]
        leads(file, data, cache, from, chain) && chain.last() == a;
    let longer = chain.push(b);
    assert forall|i: int| 0 < i < longer.len() implies #[trigger] linked(
        file,
        data,
        cache,
        longer,
        i,
    ) by {
        if i < chain.len() {
            assert(linked(file, data, cache, chain, i));
        }
    }
    assert(leads(file, data, cache, from, longer) && longer.last() == b);
}

/// A starting point is reached.
pub proof fn lemma_reaches_start(
    file: &SerializedFile,
    data: Seq<u8>,
    cache: &TypeTreeCache,
    from: Seq<PathId>,
    i: int,
)
    requires
        0 <= i < from.len(),
    ensures
        reaches(file, data, cache, from, from[i]),
{
    let chain = seq![from[i]];
    assert(leads(file, data, cache, from, chain) && chain.last() == from[i]);
}

/// What holds while the search runs. `seen` holds what was met, `queue`
/// what still waits for its scan, `done` what was scanned.
#[verifier::opaque]
pub open spec fn searching(
    file: &SerializedFile,
    data: Seq<u8>,
    cache: &TypeTreeCache,
    from: Seq<PathId>,
    seen: Set<PathId>,
    queue: Seq<PathId>,
    done: Set<PathId>,
) -> bool {
    &&& forall|id: PathId| #[trigger] seen.contains(id) ==> reaches(file, data, cache, from, id)
    &&& forall|i: int| 0 <= i < queue.len() ==> reaches(file, data, cache, from, #[trigger] queue[i])
    &&& forall|id: PathId| #[trigger] seen.contains(id) ==> done.contains(id) || queue.contains(id)
    &&& forall|id: PathId| #[trigger]
        done.contains(id) ==> seen.contains(id) && scan_of(file, data, cache, id) is Ok
            && targets_within(file, data, cache, id, seen)
    &&& forall|i: int|
        0 <= i < from.len() ==> seen.contains(#[trigger] from[i]) || queue.contains(from[i])
}

/// What putting the targets of one object into the search does: `seen`
/// grows by the local targets, and those that are new wait at the end of
/// the queue.
#[verifier::opaque]
pub open spec fn enqueued(
    found: Seq<Pptr>,
    seen0: Set<PathId>,
    queue0: Seq<PathId>,
    seen1: Set<PathId>,
    queue1: Seq<PathId>,
) -> bool {
    &&& forall|id: PathId| #[trigger]
        seen1.contains(id) <==> seen0.contains(id) || local_target(found, id)
    &&& queue0.len() <= queue1.len()
    &&& forall|i: int| 0 <= i < queue0.len() ==> #[trigger] queue1[i] == queue0[i]
    &&& forall|i: int|
        queue0.len() <= i < queue1.len() ==> local_target(found, #[trigger] queue1[i])
            && !seen0.contains(queue1[i])
    &&& forall|id: PathId| #[trigger]
        seen1.contains(id) && !seen0.contains(id) ==> queue1.contains(id)
}

/// Puts the local targets among the pointers into the search.
fn enqueue_targets(found: &Vec<Pptr>, seen: &mut BTreeSet<PathId>, queue: &mut VecDeque<PathId>)
    ensures
        enqueued(found@, old(seen)@, old(queue)@, final(seen)@, final(queue)@),
{
    reveal(enqueued);
    let mut k: usize = 0;
    while k < found.len()
        invariant
            k <= found.len(),
            enqueued(found@.take(k as int), old(seen)@, old(queue)@, seen@, queue@),
        decreases found.len() - k,
    {
        reveal(enqueued);
        let target = found[k];
        let ghost seen_here = seen@;
        let ghost queue_here = queue@;
        let ghost prefix = found@.take(k as int);
        let ghost longer = found@.take(k + 1);
        proof {
            assert forall|id: PathId| local_target(prefix, id) implies local_target(longer, id) by {
                let j = choose|j: int|
                    0 <= j < prefix.len() && (#[trigger] prefix[j]).file_id == 0 && prefix[j].path_id
                        == id;
                assert(longer[j].file_id == 0 && longer[j].path_id == id);
            }
            assert forall|id: PathId| local_target(longer, id) implies local_target(prefix, id) || (
            target.file_id == 0 && target.path_id == id) by {
                let j = choose|j: int|
                    0 <= j < longer.len() && (#[trigger] longer[j]).file_id == 0 && longer[j].path_id
                        == id;
                if j < k {
                    assert(prefix[j].file_id == 0 && prefix[j].path_id == id);
                }
            }
            if target.file_id == 0 {
                assert(longer[k as int].file_id == 0 && longer[k as int].path_id == target.path_id);
            }
        }
        if target.is_local() {
            if id_set_insert(seen, target.path_id) {
                queue.push_back(target.path_id);
                proof {
                    assert(queue@[queue_here.len() as int] == target.path_id);
                    assert forall|id: PathId| #[trigger]
                        seen@.contains(id) && !old(seen)@.contains(id) implies queue@.contains(
                        id,
                    ) by {
                        if id != target.path_id {
                            assert(seen_here.contains(id));
                            let j = choose|j: int| 0 <= j < queue_here.len() && queue_here[j] == id;
                            assert(queue@[j] == id);
                        }
                    }
                }
            }
        }
        k += 1;
    }
    assert(found@.take(k as int) =~= found@);
}

/// The search is sound when it starts: nothing is seen, and the starting
/// points wait.
pub proof fn lemma_search_start(
    file: &SerializedFile,
    data: Seq<u8>,
    cache: &TypeTreeCache,
    from: Seq<PathId>,
)
    ensures
        searching(file, data, cache, from, Set::empty(), from, Set::empty()),
{
    reveal(searching);
    assert forall|i: int| 0 <= i < from.len() implies reaches(
        file,
        data,
        cache,
        from,
        #[trigger] from[i],
    ) by {
        lemma_reaches_start(file, data, cache, from, i);
    }
}

/// When nothing waits any more, what was seen is exactly what is reached,
/// and it is closed.
pub proof fn lemma_search_end(
    file: &SerializedFile,
    data: Seq<u8>,
    cache: &TypeTreeCache,
    from: Seq<PathId>,
    seen: Set<PathId>,
    done: Set<PathId>,
)
    requires
        searching(file, data, cache, from, seen, Seq::empty(), done),
    ensures
        closed(file, data, cache, seen),
        forall|id: PathId| seen.contains(id) <==> reaches(file, data, cache, from, id),
{
    reveal(searching);
    let queue = Seq::<PathId>::empty();
    assert forall|id: PathId| #[trigger] seen.contains(id) implies done.contains(id) by {
        if queue.contains(id) {
        }
    }
    assert forall|k: int| 0 <= k < from.len() implies seen.contains(#[trigger] from[k]) by {
        if queue.contains(from[k]) {
        }
    }
    assert(closed(file, data, cache, seen));
    assert forall|id: PathId| reaches(file, data, cache, from, id) implies seen.contains(id) by {
        let chain = choose|chain: Seq<PathId>| #[trigger]
            leads(file, data, cache, from, chain) && chain.last() == id;
        lemma_closed_holds_chain(file, data, cache, from, seen, chain, chain.len() - 1);
    }
}

/// What waits in the search is reached.
pub proof fn lemma_search_front(
    file: &SerializedFile,
    data: Seq<u8>,
    cache: &TypeTreeCache,
    from: Seq<PathId>,
    seen: Set<PathId>,
    queue: Seq<PathId>,
    done: Set<PathId>,
)
    requires
        searching(file, data, cache, from, seen, queue, done),
        queue.len() > 0,
    ensures
        reaches(file, data, cache, from, queue[0]),
{
    reveal(searching);
}

/// The search stays sound over one step: an object leaves the queue, is
/// scanned, and its targets are put into the search.
#[verifier::rlimit(60)]
pub proof fn lemma_search_step(
    file: &SerializedFile,
    data: Seq<u8>,
    cache: &TypeTreeCache,
    from: Seq<PathId>,
    found: Seq<Pptr>,
    seen0: Set<PathId>,
    queue0: Seq<PathId>,
    done0: Set<PathId>,
    seen1: Set<PathId>,
    queue1: Seq<PathId>,
)
    requires
        searching(file, data, cache, from, seen0, queue0, done0),
        queue0.len() > 0,
        scan_of(file, data, cache, queue0[0]) == Ok::<Seq<Pptr>, RepackError>(found),
        enqueued(
            found,
            seen0.insert(queue0[0]),
            queue0.subrange(1, queue0.len() as int),
            seen1,
            queue1,
        ),
    ensures
        searching(file, data, cache, from, seen1, queue1, done0.insert(queue0[0])),
        done0.contains(queue0[0]) ==> queue1.len() < queue0.len(),
        object_index(file.objects@, file.objects@.len() as int).contains_key(queue0[0]),
{
    reveal(searching);
    reveal(enqueued);
    lemma_scanned_is_object(file, data, cache, queue0[0]);
    let node = queue0[0];
    let rest = queue0.subrange(1, queue0.len() as int);
    let mid = seen0.insert(node);
    let done1 = done0.insert(node);
    assert(reaches(file, data, cache, from, node));
    assert forall|id: PathId| queue0.contains(id) implies id == node || rest.contains(id) by {
        let j = choose|j: int| 0 <= j < queue0.len() && queue0[j] == id;
        if j > 0 {
            assert(rest[j - 1] == id);
        }
    }
    assert forall|id: PathId| rest.contains(id) implies queue1.contains(id) by {
        let j = choose|j: int| 0 <= j < rest.len() && rest[j] == id;
        assert(queue1[j] == rest[j]);
    }
    assert forall|id: PathId| #[trigger] seen1.contains(id) implies reaches(
        file,
        data,
        cache,
        from,
        id,
    ) by {
        if !mid.contains(id) {
            assert(local_target(found, id));
            assert(points_to(file, data, cache, node, id));
            lemma_reaches_step(file, data, cache, from, node, id);
        }
    }
    assert forall|i: int| 0 <= i < queue1.len() implies reaches(
        file,
        data,
        cache,
        from,
        #[trigger] queue1[i],
    ) by {
        if i < rest.len() {
            assert(queue1[i] == rest[i]);
            assert(rest[i] == queue0[i + 1]);
        } else {
            assert(local_target(found, queue1[i]));
            assert(points_to(file, data, cache, node, queue1[i]));
            lemma_reaches_step(file, data, cache, from, node, queue1[i]);
        }
    }
    assert forall|id: PathId| #[trigger] seen1.contains(id) implies done1.contains(id)
        || queue1.contains(id) by {
        if mid.contains(id) {
            if id != node && !done0.contains(id) {
                assert(seen0.contains(id));
                assert(queue0.contains(id));
            }
        }
    }
    assert forall|id: PathId| #[trigger] done1.contains(id) implies seen1.contains(id) && scan_of(
        file,
        data,
        cache,
        id,
    ) is Ok && targets_within(file, data, cache, id, seen1) by {
        assert(mid.contains(id));
        assert forall|b: PathId| #[trigger] points_to(file, data, cache, id, b) implies seen1.contains(
            b,
        ) by {
            if id == node {
                assert(local_target(found, b));
            } else {
                assert(targets_within(file, data, cache, id, seen0));
                assert(seen0.contains(b));
                assert(mid.contains(b));
            }
        }
    }
    assert forall|i: int| 0 <= i < from.len() implies seen1.contains(#[trigger] from[i])
        || queue1.contains(from[i]) by {
        let id = from[i];
        if seen0.contains(id) {
            assert(mid.contains(id));
        } else {
            assert(queue0.contains(id));
            if id == node {
                assert(mid.contains(id));
            }
        }
    }
    if done0.contains(node) {
        assert(targets_within(file, data, cache, node, seen0));
        if queue1.len() > rest.len() {
            let t = queue1[rest.len() as int];
            assert(local_target(found, t) && !mid.contains(t));
            assert(points_to(file, data, cache, node, t));
            assert(seen0.contains(t));
        }
    }
}

/// Finds all objects that are reached from the starting points.
///
/// The search goes breadth first. It scans every object it meets and
/// follows the pointers that stay in the file; the pointer from a
/// transform to its father is not followed. The result holds the starting
/// points and exactly what they reach. The search fails with the failure of
/// an object that is reached and cannot be scanned: one that is absent,
/// has no type tree or does not fit its type tree.
pub fn reachable(file: &SerializedFile, data: &[u8], tpk: &TypeTreeCache, from: VecDeque<PathId>)
    -> (r: Result<BTreeSet<PathId>, RepackError>)
    ensures
        match r {
            Ok(seen) => {
                &&& forall|id: PathId| seen@.contains(id) <==> reaches(file, data@, tpk, from@, id)
                &&& closed(file, data@, tpk, seen@)
            },
            Err(e) => exists|id: PathId|
                reaches(file, data@, tpk, from@, id) && #[trigger] scan_of(file, data@, tpk, id)
                    == Err::<Seq<Pptr>, RepackError>(e),
        },
{
    let index = index_objects(&file.objects);
    let ghost ids = index@.dom();
    let count: usize = file.objects.len();
    let mut queue = from;
    let mut seen: BTreeSet<PathId> = id_set_new();
    let ghost mut done: Set<PathId> = Set::empty();
    proof {
        lemma_object_index(file.objects@, file.objects@.len() as int);
        assert(ids.difference(done) =~= ids);
        lemma_search_start(file, data@, tpk, from@);
    }
    loop
        invariant
            index@ == object_index(file.objects@, file.objects@.len() as int),
            ids == index@.dom(),
            ids.finite(),
            done.subset_of(ids),
            searching(file, data@, tpk, from@, seen@, queue@, done),
        ensures
            queue@.len() == 0,
        decreases ids.difference(done).len(), queue@.len(),
    {
        let ghost queue0 = queue@;
        let ghost seen0 = seen@;
        let ghost done0 = done;
        let node = match queue.pop_front() {
            Some(node) => node,
            None => {
                break ;
            },
        };
        proof {
            lemma_search_front(file, data@, tpk, from@, seen0, queue0, done0);
        }
        let found = match reachable_one(file, &index, data, tpk, node) {
            Ok(found) => found,
            Err(e) => {
                return Err(e);
            },
        };
        id_set_insert(&mut seen, node);
        enqueue_targets(&found, &mut seen, &mut queue);
        proof {
            lemma_search_step(file, data@, tpk, from@, found@, seen0, queue0, done0, seen@, queue@);
            done = done0.insert(node);
            if !done0.contains(node) {
                ids.lemma_set_insert_diff_decreases(done0, node);
            } else {
                assert(done =~= done0);
            }
        }
    }
    proof {
        assert(queue@ =~= Seq::empty());
        lemma_search_end(file, data@, tpk, from@, seen@, done);
    }
    Ok(seen)
}

} // verus!
