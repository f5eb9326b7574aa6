//! What holds of every asset bundle that is planned.

use crate::error::RepackError;
use crate::merge_serialized::{
    object_payload, object_tree, path_remap, remapped_info, remapped_object, remapped_objects,
    with_bytes, RemapModel,
};
use crate::walker::{pptr_at, replaced, walk, WalkError};
use crate::walker_laws::{law_rewrite_keeps_layout, remapped_pptr};
use crate::pptr::PathId;
use crate::repack::{
    lemma_merged_before, lemma_retained_well_formed, merge_step, merged_upto, objects_upto,
    packed_asset_bundle, remap_of, scene_objects, survivors, with_extras, AssetBundlePlan,
    ExtraObject, RepackScene,
};
use crate::container::container_entries;
use crate::serialized::{distinct_path_ids, file_models, path_ids, ObjectInfo, SerializedType};
use crate::typetree::TypeTreeNode;
use crate::typetree_cache::TypeTreeCache;
use vstd::prelude::*;

verus! {

/// Among objects with distinct path ids, the `k`-th gets the `k`-th new
/// path id.
pub proof fn lemma_path_remap_distinct(objects: Seq<ObjectInfo>, n: int, base: int, k: int)
    requires
        distinct_path_ids(objects),
        0 <= k < n <= objects.len(),
        base + n <= i64::MAX,
        i64::MIN <= base,
    ensures
        path_remap(objects, n, base).contains_key(objects[k].path_id),
        path_remap(objects, n, base)[objects[k].path_id] == base + k,
    decreases n,
{
    if k < n - 1 {
        lemma_path_remap_distinct(objects, n - 1, base, k);
        assert(objects[k].path_id != objects[n - 1].path_id);
    }
}

/// The objects outside the hierarchy leave the path ids alone.
pub proof fn lemma_extras_keep_path_id(extras: Seq<ExtraObject>, n: int)
    requires
        with_extras(extras, n) is Ok,
    ensures
        with_extras(extras, n)->Ok_0.next_path_id == 2,
        with_extras(extras, n)->Ok_0.types.len() == 0,
    decreases n,
{
    if n > 0 {
        lemma_extras_keep_path_id(extras, n - 1);
    }
}

/// How many objects of the first `n` scenes survive.
pub open spec fn survivors_before(scenes: Seq<RepackScene>, n: int) -> nat
    decreases n,
{
    if n <= 0 {
        0
    } else {
        survivors_before(scenes, n - 1) + survivors(scenes[n - 1]).len()
    }
}

/// The next path id of the merged file counts the survivors, and the
/// types of the merged file only grow.
pub proof fn lemma_merged_counts(extras: Seq<ExtraObject>, scenes: Seq<RepackScene>, n: int, m: int)
    requires
        0 <= n <= m,
        merged_upto(extras, scenes, m) is Ok,
    ensures
        merged_upto(extras, scenes, n) is Ok,
        merged_upto(extras, scenes, n)->Ok_0.next_path_id == 2 + survivors_before(scenes, n),
        merged_upto(extras, scenes, n)->Ok_0.next_path_id <= merged_upto(
            extras,
            scenes,
            m,
        )->Ok_0.next_path_id <= i64::MAX,
        merged_upto(extras, scenes, n)->Ok_0.types.len() <= merged_upto(
            extras,
            scenes,
            m,
        )->Ok_0.types.len(),
    decreases m,
{
    lemma_merged_before(extras, scenes, n, m);
    if m == 0 {
        lemma_extras_keep_path_id(extras, extras.len() as int);
    } else {
        lemma_merged_before(extras, scenes, m - 1, m);
        if n < m {
            lemma_merged_counts(extras, scenes, n, m - 1);
            lemma_merged_counts(extras, scenes, m - 1, m - 1);
        } else {
            lemma_merged_counts(extras, scenes, m - 1, m - 1);
        }
    }
}

/// Every object that enters the merged file has the new path id and a
/// type index that the given remap gives it, and the type exists.
pub proof fn lemma_remapped_objects(
    objects: Seq<ObjectInfo>,
    n: int,
    types: Seq<SerializedType>,
    data: Seq<u8>,
    cache: &TypeTreeCache,
    replacements: Map<PathId, Vec<u8>>,
    mb_types: Map<PathId, TypeTreeNode>,
    remap: RemapModel,
    big: bool,
)
    requires
        0 <= n <= objects.len(),
        remapped_objects(objects, n, types, data, cache, replacements, mb_types, remap, big) is Ok,
    ensures
        remapped_objects(
            objects,
            n,
            types,
            data,
            cache,
            replacements,
            mb_types,
            remap,
            big,
        )->Ok_0.len() == n,
        forall|k: int|
            0 <= k < n ==> {
                let out = #[trigger] remapped_objects(
                    objects,
                    n,
                    types,
                    data,
                    cache,
                    replacements,
                    mb_types,
                    remap,
                    big,
                )->Ok_0[k];
                &&& out.0 == remapped_info(objects[k], remap.paths, remap.types)
                &&& 0 <= out.0.type_id < types.len()
                &&& remapped_object(
                    objects[k],
                    types,
                    data,
                    cache,
                    replacements,
                    mb_types,
                    remap,
                    big,
                ) == Ok::<(ObjectInfo, Seq<u8>), RepackError>(out)
            },
    decreases n,
{
    if n > 0 {
        lemma_remapped_objects(
            objects,
            n - 1,
            types,
            data,
            cache,
            replacements,
            mb_types,
            remap,
            big,
        );
    }
}

/// What holds of the objects that the first `n` scenes bring: they are
/// numbered from 2 on without a gap, and each is of a type that the merged
/// file has.
pub proof fn lemma_objects_numbered(
    extras: Seq<ExtraObject>,
    scenes: Seq<RepackScene>,
    n: int,
    types: Seq<SerializedType>,
    cache: &TypeTreeCache,
)
    requires
        0 <= n <= scenes.len(),
        merged_upto(extras, scenes, scenes.len() as int) is Ok,
        objects_upto(extras, scenes, n, types, cache) is Ok,
    ensures
        objects_upto(extras, scenes, n, types, cache)->Ok_0.len() == survivors_before(scenes, n),
        forall|k: int|
            0 <= k < objects_upto(extras, scenes, n, types, cache)->Ok_0.len() ==> {
                let out = #[trigger] objects_upto(extras, scenes, n, types, cache)->Ok_0[k];
                &&& out.0.path_id == 2 + k
                &&& 0 <= out.0.type_id < types.len()
            },
    decreases n,
{
    if n > 0 {
        lemma_objects_numbered(extras, scenes, n - 1, types, cache);
        lemma_merged_counts(extras, scenes, n - 1, scenes.len() as int);
        lemma_merged_counts(extras, scenes, n, scenes.len() as int);
        let before = objects_upto(extras, scenes, n - 1, types, cache)->Ok_0;
        let m = merged_upto(extras, scenes, n - 1)->Ok_0;
        let scene = scenes[n - 1];
        let kept = survivors(scene);
        let remap = remap_of(m, scene);
        let added = scene_objects(m, scene, types, cache)->Ok_0;
        let all = objects_upto(extras, scenes, n, types, cache)->Ok_0;
        assert(all == before + added);
        assert(merge_step(m, scene) is Ok);
        lemma_retained_well_formed(
            scene.serialized.objects@,
            scene.keep_objects@,
            scene.serialized.types@.len(),
        );
        lemma_remapped_objects(
            kept,
            kept.len() as int,
            types,
            scene.serialized_data@,
            cache,
            scene.replacements@,
            scene.monobehaviour_types@,
            remap,
            scene.serialized.endianness.spec_is_big(),
        );
        assert forall|k: int| 0 <= k < all.len() implies ({
            let out = #[trigger] all[k];
            &&& out.0.path_id == 2 + k
            &&& 0 <= out.0.type_id < types.len()
        }) by {
            if k < before.len() {
                assert(all[k] == before[k]);
            } else {
                let j = k - before.len();
                assert(all[k] == added[j]);
                lemma_path_remap_distinct(kept, kept.len() as int, m.next_path_id, j);
            }
        }
    }
}

/// In every asset bundle that is planned, the objects are numbered from 2
/// on without a gap, in the order in which they stand: the path ids
/// ascend, no two objects share one, and path id 1 is free for the object
/// that describes the bundle.
pub proof fn law_objects_numbered_from_two(
    extras: Seq<ExtraObject>,
    scenes: Seq<RepackScene>,
    cache: &TypeTreeCache,
    r: Result<AssetBundlePlan, RepackError>,
)
    requires
        packed_asset_bundle(extras, scenes, cache, r),
        r is Ok,
    ensures
        forall|k: int|
            0 <= k < r->Ok_0.builder.objects@.len() ==> (#[trigger] r->Ok_0.builder.objects@[k]).0.path_id
                == 2 + k,
        r->Ok_0.builder.next_path_id == 2 + r->Ok_0.builder.objects@.len(),
        forall|i: int, j: int|
            0 <= i < j < r->Ok_0.builder.objects@.len() ==> (
            #[trigger] r->Ok_0.builder.objects@[i]).0.path_id < (
            #[trigger] r->Ok_0.builder.objects@[j]).0.path_id,
{
    let m = merged_upto(extras, scenes, scenes.len() as int)->Ok_0;
    let objects = objects_upto(extras, scenes, scenes.len() as int, m.types, cache)->Ok_0;
    lemma_objects_numbered(extras, scenes, scenes.len() as int, m.types, cache);
    lemma_merged_counts(extras, scenes, scenes.len() as int, scenes.len() as int);
    let out = r->Ok_0.builder.objects@;
    assert(with_bytes(out).len() == out.len());
    assert forall|k: int| 0 <= k < out.len() implies (#[trigger] out[k]).0.path_id == 2 + k by {
        assert(with_bytes(out)[k].0 == out[k].0);
        assert(objects[k].0.path_id == 2 + k);
    }
}

/// In every asset bundle that is planned, each object is of a type that
/// the merged file has.
pub proof fn law_type_index_valid(
    extras: Seq<ExtraObject>,
    scenes: Seq<RepackScene>,
    cache: &TypeTreeCache,
    r: Result<AssetBundlePlan, RepackError>,
)
    requires
        packed_asset_bundle(extras, scenes, cache, r),
        r is Ok,
    ensures
        forall|k: int|
            0 <= k < r->Ok_0.builder.objects@.len() ==> 0 <= (
            #[trigger] r->Ok_0.builder.objects@[k]).0.type_id
                < r->Ok_0.builder.serialized.types@.len(),
{
    let m = merged_upto(extras, scenes, scenes.len() as int)->Ok_0;
    let objects = objects_upto(extras, scenes, scenes.len() as int, m.types, cache)->Ok_0;
    lemma_objects_numbered(extras, scenes, scenes.len() as int, m.types, cache);
    let out = r->Ok_0.builder.objects@;
    assert(with_bytes(out).len() == out.len());
    assert forall|k: int| 0 <= k < out.len() implies 0 <= (#[trigger] out[k]).0.type_id
        < m.types.len() by {
        assert(with_bytes(out)[k].0 == out[k].0);
        assert(0 <= objects[k].0.type_id < m.types.len());
    }
}

/// The survivors of the scenes are counted scene after scene.
pub proof fn lemma_survivors_counted(scenes: Seq<RepackScene>, n: int, m: int)
    requires
        0 <= n <= m,
    ensures
        survivors_before(scenes, n) <= survivors_before(scenes, m),
    decreases m - n,
{
    if n < m {
        lemma_survivors_counted(scenes, n, m - 1);
    }
}

/// The `j`-th survivor of the `s`-th scene stands in the merged file
/// behind the survivors of the scenes before it.
pub proof fn lemma_objects_at(
    extras: Seq<ExtraObject>,
    scenes: Seq<RepackScene>,
    m: int,
    types: Seq<SerializedType>,
    cache: &TypeTreeCache,
    s: int,
    j: int,
)
    requires
        0 <= s < m <= scenes.len(),
        merged_upto(extras, scenes, scenes.len() as int) is Ok,
        objects_upto(extras, scenes, m, types, cache) is Ok,
        0 <= j < survivors(scenes[s]).len(),
    ensures
        merged_upto(extras, scenes, s) is Ok,
        scene_objects(merged_upto(extras, scenes, s)->Ok_0, scenes[s], types, cache) is Ok,
        survivors_before(scenes, s) + j < objects_upto(extras, scenes, m, types, cache)->Ok_0.len(),
        objects_upto(extras, scenes, m, types, cache)->Ok_0[survivors_before(scenes, s) + j]
            == scene_objects(merged_upto(extras, scenes, s)->Ok_0, scenes[s], types, cache)->Ok_0[j],
    decreases m,
{
    lemma_merged_counts(extras, scenes, m - 1, scenes.len() as int);
    lemma_objects_numbered(extras, scenes, m - 1, types, cache);
    lemma_objects_numbered(extras, scenes, m, types, cache);
    let before = objects_upto(extras, scenes, m - 1, types, cache)->Ok_0;
    let last = merged_upto(extras, scenes, m - 1)->Ok_0;
    let added = scene_objects(last, scenes[m - 1], types, cache)->Ok_0;
    let kept = survivors(scenes[m - 1]);
    lemma_remapped_objects(
        kept,
        kept.len() as int,
        types,
        scenes[m - 1].serialized_data@,
        cache,
        scenes[m - 1].replacements@,
        scenes[m - 1].monobehaviour_types@,
        remap_of(last, scenes[m - 1]),
        scenes[m - 1].serialized.endianness.spec_is_big(),
    );
    if s < m - 1 {
        lemma_objects_at(extras, scenes, m - 1, types, cache, s, j);
        lemma_survivors_counted(scenes, s + 1, m - 1);
    }
}

/// The type tree by which the `j`-th survivor of the `s`-th scene is
/// rewritten.
pub open spec fn merged_tree(
    extras: Seq<ExtraObject>,
    scenes: Seq<RepackScene>,
    cache: &TypeTreeCache,
    s: int,
    j: int,
) -> TypeTreeNode {
    let obj = survivors(scenes[s])[j];
    let types = merged_upto(extras, scenes, scenes.len() as int)->Ok_0.types;
    let remap = remap_of(merged_upto(extras, scenes, s)->Ok_0, scenes[s]);
    object_tree(
        obj.path_id,
        obj.class_id,
        types[remap.types[obj.type_id] as int],
        cache,
        scenes[s].monobehaviour_types@,
    )->0
}

/// The bytes of the `j`-th survivor of the `s`-th scene before the rewrite.
pub open spec fn merged_payload(scenes: Seq<RepackScene>, s: int, j: int) -> Seq<u8> {
    object_payload(survivors(scenes[s])[j], scenes[s].serialized_data@, scenes[s].replacements@)->0
}

/// Where the pointer fields of the `j`-th survivor of the `s`-th scene lie.
pub open spec fn merged_fields(
    extras: Seq<ExtraObject>,
    scenes: Seq<RepackScene>,
    cache: &TypeTreeCache,
    s: int,
    j: int,
) -> Seq<usize> {
    walk(
        merged_tree(extras, scenes, cache, s, j)@,
        merged_payload(scenes, s, j),
        scenes[s].serialized.endianness.spec_is_big(),
        false,
    )->Ok_0.pptrs
}

/// In every asset bundle that is planned, an object has its pointer fields
/// where it had them before. A pointer that was null is null. A local
/// pointer that led to a surviving object of its scene leads to an object
/// of the bundle: the one that the survivor became.
pub proof fn law_no_dangling_local_pointer(
    extras: Seq<ExtraObject>,
    scenes: Seq<RepackScene>,
    cache: &TypeTreeCache,
    r: Result<AssetBundlePlan, RepackError>,
    s: int,
    j: int,
    k: int,
)
    requires
        packed_asset_bundle(extras, scenes, cache, r),
        r is Ok,
        0 <= s < scenes.len(),
        0 <= j < survivors(scenes[s]).len(),
        merged_payload(scenes, s, j).len() <= usize::MAX,
        0 <= k < merged_fields(extras, scenes, cache, s, j).len(),
        ({
            let q = pptr_at(
                merged_payload(scenes, s, j),
                merged_fields(extras, scenes, cache, s, j)[k] as int,
                scenes[s].serialized.endianness.spec_is_big(),
            );
            !q.spec_is_null() && q.file_id == 0 ==> path_ids(survivors(scenes[s])).contains(q.path_id)
        }),
    ensures
        survivors_before(scenes, s) + j < r->Ok_0.builder.objects@.len(),
        ({
            let big = scenes[s].serialized.endianness.spec_is_big();
            let tree = merged_tree(extras, scenes, cache, s, j)@;
            let before = merged_payload(scenes, s, j);
            let after = r->Ok_0.builder.objects@[survivors_before(scenes, s) + j].1@;
            let at = merged_fields(extras, scenes, cache, s, j)[k] as int;
            let q = pptr_at(before, at, big);
            let q2 = pptr_at(after, at, big);
            &&& walk(tree, after, big, false) == walk(tree, before, big, false)
            &&& q.spec_is_null() ==> q2 == q
            &&& !q.spec_is_null() && q.file_id == 0 ==> q2.file_id == 0 && exists|i: int|
                0 <= i < r->Ok_0.builder.objects@.len() && (
                #[trigger] r->Ok_0.builder.objects@[i]).0.path_id == q2.path_id
        }),
{
    let all = scenes.len() as int;
    let m = merged_upto(extras, scenes, all)->Ok_0;
    let objects = objects_upto(extras, scenes, all, m.types, cache)->Ok_0;
    let plan = r->Ok_0.builder.objects@;
    let scene = scenes[s];
    let kept = survivors(scene);
    let obj = kept[j];
    let big = scene.serialized.endianness.spec_is_big();
    lemma_objects_at(extras, scenes, all, m.types, cache, s, j);
    lemma_objects_numbered(extras, scenes, all, m.types, cache);
    lemma_merged_counts(extras, scenes, s, all);
    lemma_merged_before(extras, scenes, s + 1, all);
    let here = merged_upto(extras, scenes, s)->Ok_0;
    let remap = remap_of(here, scene);
    lemma_remapped_objects(
        kept,
        kept.len() as int,
        m.types,
        scene.serialized_data@,
        cache,
        scene.replacements@,
        scene.monobehaviour_types@,
        remap,
        big,
    );
    let index = survivors_before(scenes, s) + j;
    assert(with_bytes(plan).len() == plan.len());
    assert(with_bytes(plan)[index] == (plan[index].0, plan[index].1@));
    let tree = merged_tree(extras, scenes, cache, s, j);
    let before = merged_payload(scenes, s, j);
    let after = plan[index].1@;
    assert(replaced(tree@, before, remap.paths, remap.files, big) == Ok::<Seq<u8>, WalkError>(
        after,
    ));
    law_rewrite_keeps_layout(tree@, before, remap.paths, remap.files, big);
    let at = merged_fields(extras, scenes, cache, s, j)[k] as int;
    let q = pptr_at(before, at, big);
    let q2 = pptr_at(after, at, big);
    assert(q2 == remapped_pptr(q, remap.paths, remap.files));
    if !q.spec_is_null() && q.file_id == 0 {
        let t = choose|t: int| 0 <= t < kept.len() && (#[trigger] kept[t]).path_id == q.path_id;
        assert(merge_step(here, scene) is Ok);
        lemma_retained_well_formed(
            scene.serialized.objects@,
            scene.keep_objects@,
            scene.serialized.types@.len(),
        );
        lemma_path_remap_distinct(kept, kept.len() as int, here.next_path_id, t);
        lemma_survivors_counted(scenes, s + 1, all);
        let target = survivors_before(scenes, s) + t;
        assert(with_bytes(plan)[target].0 == plan[target].0);
        assert(objects[target].0.path_id == 2 + target);
        assert(plan[target].0.path_id == q2.path_id);
    }
}

/// What is planned is determined by what is given: two plans for the same
/// scenes and objects fail alike, or agree in the objects with their
/// bytes, in the types, script types and externals, in the table of the
/// bundle and in the counts.
pub proof fn law_plan_determined(
    extras: Seq<ExtraObject>,
    scenes: Seq<RepackScene>,
    cache: &TypeTreeCache,
    r1: Result<AssetBundlePlan, RepackError>,
    r2: Result<AssetBundlePlan, RepackError>,
)
    requires
        packed_asset_bundle(extras, scenes, cache, r1),
        packed_asset_bundle(extras, scenes, cache, r2),
    ensures
        r1 is Ok <==> r2 is Ok,
        r1 is Err ==> r1->Err_0 == r2->Err_0,
        r1 is Ok ==> {
            let a = r1->Ok_0;
            let b = r2->Ok_0;
            &&& with_bytes(a.builder.objects@) == with_bytes(b.builder.objects@)
            &&& a.builder.serialized.types@ == b.builder.serialized.types@
            &&& a.builder.serialized.script_types@ == b.builder.serialized.script_types@
            &&& file_models(a.builder.serialized.externals@) == file_models(
                b.builder.serialized.externals@,
            )
            &&& a.builder.next_path_id == b.builder.next_path_id
            &&& container_entries(a.container) == container_entries(b.container)
            &&& a.stats == b.stats
        },
{
}

} // verus!
