//! Putting the kept objects of scenes together into the contents of a bundle.

use crate::container::{
    added, container_entries, container_insert, container_new, path_set_insert, path_set_items,
    path_set_new, path_set_to_vec, put,
};
use crate::error::RepackError;
use crate::idset::id_set_contains;
use crate::merge_serialized::{
    add_scene_meta_to_builder, check_fits, collect_used_types, kept, merged_kept_types,
    merged_script_types, remap_from, remap_objects, remap_vecs, remapped_objects, type_remap,
    used_flags, with_bytes, Bases, RemapModel, RemapSerializedIndices, SerializedFileBuilder,
};
use crate::fxmap::fx_get;
use crate::merge_serialized::object_payload;
use crate::naming::{
    asset_bundle_object_asset_name, build_player_name, extra_object_asset_name,
    get_asset_bundle_object_asset_name, get_build_player_name, get_extra_object_asset_name,
    get_scene_bundle_scene_name, get_shared_assets_name, scene_bundle_scene_name,
    shared_assets_name,
};
use crate::prune::{prune_scene, pruned_scene, select_paths, selection, Pruned};
use crate::scene_lookup::{roots_upto, SceneLookup};
use crate::naming::{level_file_name, level_index, level_index_of, level_name};
use crate::text::{str_ends_with, str_eq};
use crate::unity_types::{last_scene_named, BuildSettings, SceneObjects};
use crate::pptr::{PathId, Pptr};
use crate::prune::KeptRoot;
use crate::serialized::{
    distinct_path_ids, file_models, named_file, types_in_range, FileIdentifier,
    FileIdentifierModel, ObjectInfo, ScriptType, SerializedFile, SerializedType,
};
use crate::typetree::TypeTreeNode;
use crate::typetree_cache::TypeTreeCache;
use crate::unity_types::AssetInfo;
use crate::walker::Endianness;
use indexmap::{IndexMap, IndexSet};
use rustc_hash::FxHashMap;
use std::collections::BTreeSet;
use vstd::prelude::*;
use vstd::string::StringExecFns;
use vstd::slice::{slice_subrange, slice_to_vec};
use vstd::std_specs::hash::obeys_key_model;

verus! {

/// How much went in and how much came out.
#[derive(Clone, Copy, Debug)]
pub struct Stats {
    pub objects_before: usize,
    pub objects_after: usize,
    pub size_before: usize,
    pub size_after: usize,
}

impl Default for Stats {
    fn default() -> (r: Stats)
        ensures
            r.objects_before == 0,
            r.objects_after == 0,
            r.size_before == 0,
            r.size_after == 0,
    {
        Stats { objects_before: 0, objects_after: 0, size_before: 0, size_after: 0 }
    }
}

/// Where the type trees of user scripts come from.
pub enum MonobehaviourTypetreeMode<'a> {
    /// They are generated from the game's assemblies as they are needed.
    GenerateRuntime,
    /// They are read from an export made beforehand.
    Export(&'a [u8]),
}

/// What is to be repacked: for each scene the hierarchy paths of its
/// objects, and for each script class the names of its objects that stand
/// outside the hierarchy. Both lists are in the order asked for.
#[derive(Debug)]
pub struct RepackSettings {
    pub scene_objects: Vec<(String, Vec<String>)>,
    pub extra_objects: Vec<(String, Vec<String>)>,
}

impl RepackSettings {
    /// Whether nothing is to be repacked.
    pub fn is_empty(&self) -> (r: bool)
        ensures
            r == (self.scene_objects@.len() == 0 && self.extra_objects@.len() == 0),
    {
        self.scene_objects.len() == 0 && self.extra_objects.len() == 0
    }
}

/// An object outside the hierarchy: the file that holds it, its path id,
/// the name of its script class and its own name.
pub type ExtraObject = (String, PathId, String, String);

/// A scene with what pruning decided for it.
pub struct RepackScene<'a> {
    pub original_name: String,
    pub scene_name: Option<String>,
    pub serialized: SerializedFile,
    pub serialized_data: &'a [u8],
    pub keep_objects: BTreeSet<PathId>,
    pub roots: Vec<KeptRoot>,
    pub replacements: FxHashMap<PathId, Vec<u8>>,
    pub monobehaviour_types: FxHashMap<PathId, TypeTreeNode>,
}

/// Those of the first `n` objects that are kept, in their order.
pub open spec fn retained(objects: Seq<ObjectInfo>, keep: Set<PathId>, n: int) -> Seq<ObjectInfo>
    decreases n,
{
    if n <= 0 {
        Seq::empty()
    } else if keep.contains(objects[n - 1].path_id) {
        retained(objects, keep, n - 1).push(objects[n - 1])
    } else {
        retained(objects, keep, n - 1)
    }
}

/// What is retained is part of what was there, in the same order.
pub proof fn lemma_retained(objects: Seq<ObjectInfo>, keep: Set<PathId>, n: int)
    requires
        0 <= n <= objects.len(),
    ensures
        retained(objects, keep, n).len() <= n,
        forall|k: int|
            0 <= k < retained(objects, keep, n).len() ==> exists|i: int|
                k <= i < n && objects[i] == #[trigger] retained(objects, keep, n)[k],
        forall|a: int, b: int|
            0 <= a < b < retained(objects, keep, n).len() ==> exists|i: int, j: int|
                0 <= i < j < n && objects[i] == #[trigger] retained(objects, keep, n)[a]
                    && objects[j] == #[trigger] retained(objects, keep, n)[b],
    decreases n,
{
    if n > 0 {
        lemma_retained(objects, keep, n - 1);
        let before = retained(objects, keep, n - 1);
        let now = retained(objects, keep, n);
        assert forall|k: int| 0 <= k < now.len() implies exists|i: int|
            k <= i < n && objects[i] == #[trigger] now[k] by {
            if k < before.len() {
                let i = choose|i: int| k <= i < n - 1 && objects[i] == before[k];
                assert(objects[i] == now[k]);
            } else {
                assert(objects[n - 1] == now[k]);
            }
        }
        assert forall|a: int, b: int| 0 <= a < b < now.len() implies exists|i: int, j: int|
            0 <= i < j < n && objects[i] == #[trigger] now[a] && objects[j] == #[trigger] now[b] by {
            if b < before.len() {
                let (i, j) = choose|i: int, j: int|
                    0 <= i < j < n - 1 && objects[i] == before[a] && objects[j] == before[b];
                assert(objects[i] == now[a] && objects[j] == now[b]);
            } else {
                let i = choose|i: int| a <= i < n - 1 && objects[i] == before[a];
                assert(objects[i] == now[a] && objects[n - 1] == now[b]);
            }
        }
    }
}

/// What is retained of a well-formed table is well formed.
pub proof fn lemma_retained_well_formed(objects: Seq<ObjectInfo>, keep: Set<PathId>, types: nat)
    requires
        types_in_range(objects, types),
        distinct_path_ids(objects),
    ensures
        types_in_range(retained(objects, keep, objects.len() as int), types),
        distinct_path_ids(retained(objects, keep, objects.len() as int)),
{
    let kept = retained(objects, keep, objects.len() as int);
    lemma_retained(objects, keep, objects.len() as int);
    assert forall|k: int| 0 <= k < kept.len() implies 0 <= (#[trigger] kept[k]).type_id < types by {
        let i = choose|i: int| k <= i < objects.len() && objects[i] == kept[k];
        assert(0 <= objects[i].type_id < types);
    }
    assert forall|a: int, b: int| 0 <= a < b < kept.len() implies (#[trigger] kept[a]).path_id != (
    #[trigger] kept[b]).path_id by {
        let (i, j) = choose|i: int, j: int|
            0 <= i < j < objects.len() && objects[i] == kept[a] && objects[j] == kept[b];
        assert(objects[i].path_id != objects[j].path_id);
    }
}

/// Picks the objects that are kept.
pub fn retain_objects(objects: &Vec<ObjectInfo>, keep: &BTreeSet<PathId>) -> (r: Vec<ObjectInfo>)
    ensures
        r@ == retained(objects@, keep@, objects@.len() as int),
{
    let mut out: Vec<ObjectInfo> = Vec::new();
    let mut n: usize = 0;
    while n < objects.len()
        invariant
            n <= objects.len(),
            out@ == retained(objects@, keep@, n as int),
        decreases objects.len() - n,
    {
        if id_set_contains(keep, objects[n].path_id) {
            out.push(objects[n]);
        }
        n += 1;
    }
    out
}

/// Drops the types that no object of the file is of, and returns where the
/// index of each other type went.
pub fn prune_types(file: &mut SerializedFile) -> (remap: FxHashMap<i32, i32>)
    requires
        old(file).well_formed(),
        old(file).types@.len() <= i32::MAX,
    ensures
        remap@ == type_remap(
            used_flags(old(file).objects@, old(file).types@.len()),
            old(file).types@.len() as int,
            0,
        ),
        final(file).types@ == kept(
            old(file).types@,
            used_flags(old(file).objects@, old(file).types@.len()),
            old(file).types@.len() as int,
        ),
        final(file).objects == old(file).objects,
        final(file).externals == old(file).externals,
        final(file).script_types == old(file).script_types,
        final(file).endianness == old(file).endianness,
        final(file).big_id_enabled == old(file).big_id_enabled,
        final(file).ref_types == old(file).ref_types,
{
    let used_types = collect_used_types(file);
    let mut types: Vec<SerializedType> = Vec::new();
    let remap = remap_vecs(&used_types, &mut file.types, &mut types);
    file.types = types;
    assert(Seq::<SerializedType>::empty() + kept(
        old(file).types@,
        used_types@,
        old(file).types@.len() as int,
    ) =~= kept(old(file).types@, used_types@, old(file).types@.len() as int));
    remap
}

/// The first `n` paths without repetitions, each where it came first.
pub open spec fn deduplicated(paths: Seq<String>, n: int) -> Seq<Seq<char>>
    decreases n,
{
    if n <= 0 {
        Seq::empty()
    } else {
        added(deduplicated(paths, n - 1), paths[n - 1]@)
    }
}

/// Those of the first `n` paths that repeat an earlier one.
pub open spec fn repeated(paths: Seq<String>, n: int) -> Seq<String>
    decreases n,
{
    if n <= 0 {
        Seq::empty()
    } else if deduplicated(paths, n - 1).contains(paths[n - 1]@) {
        repeated(paths, n - 1).push(paths[n - 1])
    } else {
        repeated(paths, n - 1)
    }
}

/// Removes the repetitions among the paths. The result holds each path
/// once, where it came first, and lists the paths that repeat an earlier one.
pub fn deduplicate_objects(paths: &Vec<String>) -> (r: (IndexSet<String>, Vec<String>))
    ensures
        path_set_items(r.0) == deduplicated(paths@, paths@.len() as int),
        r.1@ == repeated(paths@, paths@.len() as int),
{
    let mut set = path_set_new();
    let mut duplicates: Vec<String> = Vec::new();
    let mut n: usize = 0;
    while n < paths.len()
        invariant
            n <= paths.len(),
            path_set_items(set) == deduplicated(paths@, n as int),
            duplicates@ == repeated(paths@, n as int),
        decreases paths.len() - n,
    {
        if !path_set_insert(&mut set, paths[n].clone()) {
            duplicates.push(paths[n].clone());
        }
        n += 1;
    }
    (set, duplicates)
}

/// The merged file and the table of the bundle while scenes are taken in.
pub struct Merged {
    pub next_path_id: int,
    pub externals: Seq<FileIdentifierModel>,
    pub script_types: Seq<ScriptType>,
    pub types: Seq<SerializedType>,
    pub container: Seq<(Seq<char>, AssetInfo)>,
    pub objects_before: nat,
    pub objects_after: nat,
    pub size_before: nat,
}

/// How much the merged file holds.
pub open spec fn bases(m: Merged) -> Bases {
    Bases {
        next_path_id: m.next_path_id,
        externals: m.externals.len() as int,
        scripts: m.script_types.len() as int,
        types: m.types.len() as int,
    }
}

/// The merged file before anything is taken in.
pub open spec fn merged_nothing() -> Merged {
    Merged {
        next_path_id: 2,
        externals: Seq::empty(),
        script_types: Seq::empty(),
        types: Seq::empty(),
        container: Seq::empty(),
        objects_before: 0,
        objects_after: 0,
        size_before: 0,
    }
}

/// The merged file after the first `n` objects outside the hierarchy were
/// entered: each brings the file that holds it as an external, and is
/// offered under the name of its class and its own name.
pub open spec fn with_extras(extras: Seq<ExtraObject>, n: int) -> Result<Merged, RepackError>
    decreases n,
{
    if n <= 0 {
        Ok(merged_nothing())
    } else {
        match with_extras(extras, n - 1) {
            Err(e) => Err(e),
            Ok(m) => if m.externals.len() >= i32::MAX {
                Err(RepackError::Internal)
            } else {
                let extra = extras[n - 1];
                Ok(
                    Merged {
                        externals: m.externals.push(named_file(extra.0@)),
                        container: put(
                            m.container,
                            extra_object_asset_name(extra.2@, extra.3@),
                            AssetInfo {
                                preload_index: 0,
                                preload_size: 0,
                                asset: Pptr {
                                    file_id: (m.externals.len() + 1) as i32,
                                    path_id: extra.1,
                                },
                            },
                        ),
                        ..m
                    },
                )
            },
        }
    }
}

/// The objects of a scene that survive.
pub open spec fn survivors(scene: RepackScene) -> Seq<ObjectInfo> {
    retained(scene.serialized.objects@, scene.keep_objects@, scene.serialized.objects@.len() as int)
}

/// Why a scene cannot be merged, if it cannot: it uses big ids or
/// reference types, or its object table is not well formed.
pub open spec fn refused(scene: RepackScene) -> Option<RepackError> {
    if scene.serialized.big_id_enabled is Some || scene.serialized.ref_types != Some(0usize) {
        Some(RepackError::UnsupportedFeature)
    } else if !scene.serialized.well_formed() {
        Some(RepackError::Parse)
    } else {
        None
    }
}

/// Whether the merged file and the counts have room for the scene.
pub open spec fn has_room(m: Merged, scene: RepackScene) -> bool {
    &&& m.next_path_id + survivors(scene).len() <= i64::MAX
    &&& m.externals.len() + scene.serialized.externals@.len() <= i32::MAX
    &&& m.script_types.len() + scene.serialized.script_types@.len() <= i16::MAX
    &&& m.types.len() + scene.serialized.types@.len() <= i32::MAX
    &&& m.objects_before + scene.serialized.objects@.len() <= usize::MAX
    &&& m.size_before + scene.serialized_data@.len() <= usize::MAX
}

/// Where the indices of a scene go when it is taken into the merged file.
pub open spec fn remap_of(m: Merged, scene: RepackScene) -> RemapModel {
    remap_from(
        survivors(scene),
        scene.serialized.externals@.len(),
        scene.serialized.types@.len(),
        bases(m),
    )
}

/// The table after the first `n` roots of a scene were entered: each is
/// offered under the scene's name and its path, and leads to the new path
/// id of its game object. A root in another file or a scene without a name
/// is a failure.
pub open spec fn with_roots(
    container: Seq<(Seq<char>, AssetInfo)>,
    scene_name: Option<String>,
    roots: Seq<KeptRoot>,
    paths: Map<PathId, PathId>,
    n: int,
) -> Result<Seq<(Seq<char>, AssetInfo)>, RepackError>
    decreases n,
{
    if n <= 0 {
        Ok(container)
    } else {
        match with_roots(container, scene_name, roots, paths, n - 1) {
            Err(e) => Err(e),
            Ok(before) => {
                let go = roots[n - 1].game_object;
                if go.file_id != 0 || scene_name is None {
                    Err(RepackError::Internal)
                } else {
                    Ok(
                        put(
                            before,
                            asset_bundle_object_asset_name(scene_name->0@, roots[n - 1].path@),
                            AssetInfo {
                                preload_index: 0,
                                preload_size: 0,
                                asset: Pptr {
                                    file_id: 0,
                                    path_id: if paths.contains_key(go.path_id) {
                                        paths[go.path_id]
                                    } else {
                                        go.path_id
                                    },
                                },
                            },
                        ),
                    )
                }
            },
        }
    }
}

/// The merged file after a scene was taken in.
pub open spec fn merge_step(m: Merged, scene: RepackScene) -> Result<Merged, RepackError> {
    match refused(scene) {
        Some(e) => Err(e),
        None => if !has_room(m, scene) {
            Err(RepackError::Internal)
        } else {
            let file = scene.serialized;
            match with_roots(
                m.container,
                scene.scene_name,
                scene.roots@,
                remap_of(m, scene).paths,
                scene.roots@.len() as int,
            ) {
                Err(e) => Err(e),
                Ok(container) => Ok(
                    Merged {
                        next_path_id: m.next_path_id + survivors(scene).len(),
                        externals: m.externals + file_models(file.externals@),
                        script_types: m.script_types + merged_script_types(
                            file.script_types@,
                            file.externals@.len(),
                            bases(m),
                        ),
                        types: m.types + merged_kept_types(
                            file.types@,
                            survivors(scene),
                            file.script_types@.len(),
                            bases(m),
                        ),
                        container,
                        objects_before: m.objects_before + file.objects@.len(),
                        objects_after: m.objects_after + survivors(scene).len(),
                        size_before: m.size_before + scene.serialized_data@.len(),
                    },
                ),
            }
        },
    }
}

/// The merged file after the objects outside the hierarchy and the first
/// `n` scenes were taken in.
pub open spec fn merged_upto(extras: Seq<ExtraObject>, scenes: Seq<RepackScene>, n: int) -> Result<
    Merged,
    RepackError,
>
    decreases n,
{
    if n <= 0 {
        with_extras(extras, extras.len() as int)
    } else {
        match merged_upto(extras, scenes, n - 1) {
            Err(e) => Err(e),
            Ok(m) => merge_step(m, scenes[n - 1]),
        }
    }
}

/// The surviving objects of one scene as they enter the merged file.
/// `before` is the merged file before the scene was taken in, `types` are
/// the types of the merged file.
pub open spec fn scene_objects(
    before: Merged,
    scene: RepackScene,
    types: Seq<SerializedType>,
    cache: &TypeTreeCache,
) -> Result<Seq<(ObjectInfo, Seq<u8>)>, RepackError> {
    remapped_objects(
        survivors(scene),
        survivors(scene).len() as int,
        types,
        scene.serialized_data@,
        cache,
        scene.replacements@,
        scene.monobehaviour_types@,
        remap_of(before, scene),
        scene.serialized.endianness.spec_is_big(),
    )
}

/// The surviving objects of the first `n` scenes as they enter the merged
/// file, scene after scene.
pub open spec fn objects_upto(
    extras: Seq<ExtraObject>,
    scenes: Seq<RepackScene>,
    n: int,
    types: Seq<SerializedType>,
    cache: &TypeTreeCache,
) -> Result<Seq<(ObjectInfo, Seq<u8>)>, RepackError>
    decreases n,
{
    if n <= 0 {
        Ok(Seq::empty())
    } else {
        match objects_upto(extras, scenes, n - 1, types, cache) {
            Err(e) => Err(e),
            Ok(before) => match merged_upto(extras, scenes, n - 1) {
                Err(e) => Err(e),
                Ok(m) => match scene_objects(m, scenes[n - 1], types, cache) {
                    Err(e) => Err(e),
                    Ok(objects) => Ok(before + objects),
                },
            },
        }
    }
}

/// The contents of an asset bundle but for the object that describes it.
pub struct AssetBundlePlan {
    /// The merged file: types, script types, externals, and the objects in
    /// ascending order of their path ids, which start at 2.
    pub builder: SerializedFileBuilder,
    /// The table of the bundle: under which name which object is offered.
    pub container: IndexMap<String, AssetInfo>,
    /// The counts; the size of the output is filled in when it is written.
    pub stats: Stats,
}

/// Whether the plan is the given merged file with the given objects.
pub open spec fn plan_is(plan: AssetBundlePlan, m: Merged, objects: Seq<(ObjectInfo, Seq<u8>)>)
    -> bool {
    &&& plan.builder.next_path_id == m.next_path_id
    &&& file_models(plan.builder.serialized.externals@) == m.externals
    &&& plan.builder.serialized.script_types@ == m.script_types
    &&& plan.builder.serialized.types@ == m.types
    &&& plan.builder.serialized.objects@.len() == 0
    &&& plan.builder.serialized.endianness == Endianness::Little
    &&& plan.builder.serialized.big_id_enabled is None
    &&& plan.builder.serialized.ref_types == Some(0usize)
    &&& with_bytes(plan.builder.objects@) == objects
    &&& container_entries(plan.container) == m.container
    &&& plan.stats.objects_before == m.objects_before
    &&& plan.stats.objects_after == m.objects_after
    &&& plan.stats.size_before == m.size_before
    &&& plan.stats.size_after == 0
}

/// What `pack_to_asset_bundle` promises: the merged file after everything
/// was taken in, with the surviving objects of all scenes; or the first
/// failure, where taking in comes before the objects.
pub open spec fn packed_asset_bundle(
    extras: Seq<ExtraObject>,
    scenes: Seq<RepackScene>,
    cache: &TypeTreeCache,
    r: Result<AssetBundlePlan, RepackError>,
) -> bool {
    match merged_upto(extras, scenes, scenes.len() as int) {
        Err(e) => r == Err::<AssetBundlePlan, RepackError>(e),
        Ok(m) => match objects_upto(extras, scenes, scenes.len() as int, m.types, cache) {
            Err(e) => r == Err::<AssetBundlePlan, RepackError>(e),
            Ok(objects) => r is Ok && plan_is(r->Ok_0, m, objects),
        },
    }
}

/// Whether the builder, the table and the counts are the merged file.
pub open spec fn building(
    builder: SerializedFileBuilder,
    container: IndexMap<String, AssetInfo>,
    stats: Stats,
    m: Merged,
) -> bool {
    &&& builder.next_path_id == m.next_path_id
    &&& file_models(builder.serialized.externals@) == m.externals
    &&& builder.serialized.script_types@ == m.script_types
    &&& builder.serialized.types@ == m.types
    &&& builder.serialized.objects@.len() == 0
    &&& builder.serialized.endianness == Endianness::Little
    &&& builder.serialized.big_id_enabled is None
    &&& builder.serialized.ref_types == Some(0usize)
    &&& builder.objects@.len() == 0
    &&& m.objects_after <= m.objects_before
    &&& container_entries(container) == m.container
    &&& stats.objects_before == m.objects_before
    &&& stats.objects_after == m.objects_after
    &&& stats.size_before == m.size_before
    &&& stats.size_after == 0
}

/// Enters the objects outside the hierarchy.
fn add_extras(
    builder: &mut SerializedFileBuilder,
    container: &mut IndexMap<String, AssetInfo>,
    stats: Stats,
    extras: &Vec<ExtraObject>,
) -> (r: Result<(), RepackError>)
    requires
        building(*old(builder), *old(container), stats, merged_nothing()),
    ensures
        match r {
            Ok(()) => with_extras(extras@, extras@.len() as int) is Ok && building(
                *final(builder),
                *final(container),
                stats,
                with_extras(extras@, extras@.len() as int)->Ok_0,
            ),
            Err(e) => with_extras(extras@, extras@.len() as int) == Err::<Merged, RepackError>(e),
        },
{
    let mut n: usize = 0;
    while n < extras.len()
        invariant
            n <= extras.len(),
            with_extras(extras@, n as int) is Ok,
            building(*builder, *container, stats, with_extras(extras@, n as int)->Ok_0),
        decreases extras.len() - n,
    {
        let ghost m = with_extras(extras@, n as int)->Ok_0;
        let ghost before = builder.serialized.externals@;
        if builder.serialized.externals.len() >= 0x7fff_ffff {
            proof {
                assert(file_models(before).len() == before.len());
                lemma_extras_failure_stays(extras@, n + 1, extras@.len() as int);
            }
            return Err(RepackError::Internal);
        }
        let extra = &extras[n];
        let file_id = builder.add_external_uncached(FileIdentifier::new(extra.0.clone()));
        let info = AssetInfo::new(Pptr::new(file_id, extra.1));
        container_insert(
            container,
            get_extra_object_asset_name(extra.2.as_str(), extra.3.as_str()),
            info,
        );
        proof {
            assert(file_models(before).len() == before.len());
            assert(file_models(builder.serialized.externals@) =~= m.externals.push(
                named_file(extra.0@),
            ));
        }
        n += 1;
    }
    Ok(())
}

pub proof fn lemma_extras_failure_stays(extras: Seq<ExtraObject>, n: int, m: int)
    requires
        n <= m,
        with_extras(extras, n) is Err,
    ensures
        with_extras(extras, m) == with_extras(extras, n),
    decreases m - n,
{
    if n < m {
        lemma_extras_failure_stays(extras, n, m - 1);
    }
}

pub proof fn lemma_merged_failure_stays(
    extras: Seq<ExtraObject>,
    scenes: Seq<RepackScene>,
    n: int,
    m: int,
)
    requires
        0 <= n <= m,
        merged_upto(extras, scenes, n) is Err,
    ensures
        merged_upto(extras, scenes, m) == merged_upto(extras, scenes, n),
    decreases m - n,
{
    if n < m {
        lemma_merged_failure_stays(extras, scenes, n, m - 1);
    }
}

pub proof fn lemma_objects_failure_stays(
    extras: Seq<ExtraObject>,
    scenes: Seq<RepackScene>,
    n: int,
    m: int,
    types: Seq<SerializedType>,
    cache: &TypeTreeCache,
)
    requires
        0 <= n <= m,
        objects_upto(extras, scenes, n, types, cache) is Err,
    ensures
        objects_upto(extras, scenes, m, types, cache) == objects_upto(extras, scenes, n, types, cache),
    decreases m - n,
{
    if n < m {
        lemma_objects_failure_stays(extras, scenes, n, m - 1, types, cache);
    }
}

pub proof fn lemma_roots_entry_failure_stays(
    container: Seq<(Seq<char>, AssetInfo)>,
    scene_name: Option<String>,
    roots: Seq<KeptRoot>,
    paths: Map<PathId, PathId>,
    n: int,
    m: int,
)
    requires
        n <= m,
        with_roots(container, scene_name, roots, paths, n) is Err,
    ensures
        with_roots(container, scene_name, roots, paths, m) == with_roots(
            container,
            scene_name,
            roots,
            paths,
            n,
        ),
    decreases m - n,
{
    if n < m {
        lemma_roots_entry_failure_stays(container, scene_name, roots, paths, n, m - 1);
    }
}

/// Enters the roots of a scene into the table.
fn add_roots(
    container: &mut IndexMap<String, AssetInfo>,
    scene_name: &Option<String>,
    roots: &Vec<KeptRoot>,
    remap: &RemapSerializedIndices,
) -> (r: Result<(), RepackError>)
    ensures
        match r {
            Ok(()) => with_roots(
                container_entries(*old(container)),
                *scene_name,
                roots@,
                remap.path_id@,
                roots@.len() as int,
            ) == Ok::<Seq<(Seq<char>, AssetInfo)>, RepackError>(container_entries(*final(container))),
            Err(e) => with_roots(
                container_entries(*old(container)),
                *scene_name,
                roots@,
                remap.path_id@,
                roots@.len() as int,
            ) == Err::<Seq<(Seq<char>, AssetInfo)>, RepackError>(e),
        },
{
    broadcast use vstd::std_specs::hash::group_hash_axioms;

    let mut n: usize = 0;
    while n < roots.len()
        invariant
            n <= roots.len(),
            vstd::std_specs::hash::obeys_key_model::<i64>(),
            with_roots(
                container_entries(*old(container)),
                *scene_name,
                roots@,
                remap.path_id@,
                n as int,
            ) == Ok::<Seq<(Seq<char>, AssetInfo)>, RepackError>(container_entries(*container)),
        decreases roots.len() - n,
    {
        let go = roots[n].game_object;
        let name: &str = match scene_name {
            Some(name) => name.as_str(),
            None => "",
        };
        if !go.is_local() || scene_name.is_none() {
            proof {
                lemma_roots_entry_failure_stays(
                    container_entries(*old(container)),
                    *scene_name,
                    roots@,
                    remap.path_id@,
                    n + 1,
                    roots@.len() as int,
                );
            }
            return Err(RepackError::Internal);
        }
        let path_id = match crate::fxmap::fx_get(&remap.path_id, &go.path_id) {
            Some(replacement) => *replacement,
            None => go.path_id,
        };
        let info = AssetInfo::new(Pptr::new(0, path_id));
        container_insert(
            container,
            get_asset_bundle_object_asset_name(name, roots[n].path.as_str()),
            info,
        );
        n += 1;
    }
    Ok(())
}

/// A scene that was taken into the merged file and waits for its objects
/// to be remapped.
pub struct PreparedScene<'a> {
    pub objects: Vec<ObjectInfo>,
    pub remap: RemapSerializedIndices,
    pub data: &'a [u8],
    pub replacements: FxHashMap<PathId, Vec<u8>>,
    pub mb_types: FxHashMap<PathId, TypeTreeNode>,
    pub endianness: Endianness,
}

/// Whether the prepared scene is the scene as it was taken into `before`.
pub open spec fn prepared_from(p: PreparedScene, before: Merged, scene: RepackScene) -> bool {
    &&& p.objects@ == survivors(scene)
    &&& p.remap@ == remap_of(before, scene)
    &&& p.data@ == scene.serialized_data@
    &&& p.replacements@ == scene.replacements@
    &&& p.mb_types@ == scene.monobehaviour_types@
    &&& p.endianness == scene.serialized.endianness
}

/// Takes a scene into the merged file.
fn prepare_scene<'a>(
    builder: &mut SerializedFileBuilder,
    container: &mut IndexMap<String, AssetInfo>,
    stats: &mut Stats,
    scene: RepackScene<'a>,
    Ghost(m): Ghost<Merged>,
) -> (r: Result<PreparedScene<'a>, RepackError>)
    requires
        building(*old(builder), *old(container), *old(stats), m),
    ensures
        match r {
            Ok(p) => merge_step(m, scene) is Ok && building(
                *final(builder),
                *final(container),
                *final(stats),
                merge_step(m, scene)->Ok_0,
            ) && prepared_from(p, m, scene),
            Err(e) => merge_step(m, scene) == Err::<Merged, RepackError>(e),
        },
{
    let RepackScene {
        original_name,
        scene_name,
        serialized,
        serialized_data,
        keep_objects,
        roots,
        replacements,
        monobehaviour_types,
    } = scene;
    let mut serialized = serialized;
    if serialized.big_id_enabled.is_some() {
        return Err(RepackError::UnsupportedFeature);
    }
    match serialized.ref_types {
        Some(n) => {
            if n != 0 {
                return Err(RepackError::UnsupportedFeature);
            }
        },
        None => {
            return Err(RepackError::UnsupportedFeature);
        },
    }
    if !serialized.is_well_formed() {
        return Err(RepackError::Parse);
    }
    let objects_before = serialized.objects.len();
    let size_before = serialized_data.len();
    let endianness = serialized.endianness;
    let kept_objects = retain_objects(&serialized.objects, &keep_objects);
    proof {
        lemma_retained_well_formed(serialized.objects@, keep_objects@, serialized.types@.len());
        lemma_retained(serialized.objects@, keep_objects@, serialized.objects@.len() as int);
    }
    serialized.objects = kept_objects;
    let ghost externals_before = builder.serialized.externals@;
    let ghost scene_externals = serialized.externals@;
    proof {
        assert(file_models(externals_before).len() == externals_before.len());
    }
    if !check_fits(builder, &serialized) {
        return Err(RepackError::Internal);
    }
    let new_objects_before = match stats.objects_before.checked_add(objects_before) {
        Some(v) => v,
        None => {
            return Err(RepackError::Internal);
        },
    };
    let new_size_before = match stats.size_before.checked_add(size_before) {
        Some(v) => v,
        None => {
            return Err(RepackError::Internal);
        },
    };
    let objects_after = serialized.objects.len();
    let remap = match add_scene_meta_to_builder(builder, &mut serialized) {
        Ok(remap) => remap,
        Err(e) => {
            return Err(e);
        },
    };
    proof {
        assert(file_models(builder.serialized.externals@) =~= m.externals + file_models(
            scene_externals,
        ));
    }
    match add_roots(container, &scene_name, &roots, &remap) {
        Ok(()) => {},
        Err(e) => {
            return Err(e);
        },
    }
    proof {
        assert(m.objects_after <= m.objects_before);
    }
    stats.objects_before = new_objects_before;
    stats.objects_after = stats.objects_after + objects_after;
    stats.size_before = new_size_before;
    Ok(
        PreparedScene {
            objects: serialized.objects,
            remap,
            data: serialized_data,
            replacements,
            mb_types: monobehaviour_types,
            endianness,
        },
    )
}

/// Joining the bytes of objects goes along with joining the objects.
pub proof fn lemma_with_bytes_joined(a: Seq<(ObjectInfo, Vec<u8>)>, b: Seq<(ObjectInfo, Vec<u8>)>)
    ensures
        with_bytes(a + b) == with_bytes(a) + with_bytes(b),
{
    assert(with_bytes(a + b) =~= with_bytes(a) + with_bytes(b));
}

/// Where the merged file was built up to a scene, it was built up to every
/// scene before it.
pub proof fn lemma_merged_before(extras: Seq<ExtraObject>, scenes: Seq<RepackScene>, n: int, m: int)
    requires
        0 <= n <= m,
        merged_upto(extras, scenes, m) is Ok,
    ensures
        merged_upto(extras, scenes, n) is Ok,
    decreases m - n,
{
    if n < m {
        lemma_merged_before(extras, scenes, n, m - 1);
    }
}

/// Whether the first `n` prepared scenes are the scenes as they were taken in.
pub open spec fn all_prepared(
    prepared: Seq<PreparedScene>,
    extras: Seq<ExtraObject>,
    scenes: Seq<RepackScene>,
    n: int,
) -> bool {
    &&& prepared.len() == n
    &&& forall|s: int|
        0 <= s < n ==> prepared_from(
            #[trigger] prepared[s],
            merged_upto(extras, scenes, s)->Ok_0,
            scenes[s],
        )
}

/// Takes every scene into the merged file.
fn prepare_scenes<'a>(
    builder: &mut SerializedFileBuilder,
    container: &mut IndexMap<String, AssetInfo>,
    stats: &mut Stats,
    scenes: Vec<RepackScene<'a>>,
    Ghost(extras): Ghost<Seq<ExtraObject>>,
) -> (r: Result<Vec<PreparedScene<'a>>, RepackError>)
    requires
        merged_upto(extras, scenes@, 0) is Ok,
        building(*old(builder), *old(container), *old(stats), merged_upto(extras, scenes@, 0)->Ok_0),
    ensures
        match r {
            Ok(prepared) => {
                &&& merged_upto(extras, scenes@, scenes@.len() as int) is Ok
                &&& building(
                    *final(builder),
                    *final(container),
                    *final(stats),
                    merged_upto(extras, scenes@, scenes@.len() as int)->Ok_0,
                )
                &&& all_prepared(prepared@, extras, scenes@, scenes@.len() as int)
            },
            Err(e) => merged_upto(extras, scenes@, scenes@.len() as int) == Err::<
                Merged,
                RepackError,
            >(e),
        },
{
    let ghost all = scenes@;
    let mut prepared: Vec<PreparedScene<'a>> = Vec::new();
    for scene in it: scenes
        invariant
            it.seq() == all,
            merged_upto(extras, all, it.index() as int) is Ok,
            building(*builder, *container, *stats, merged_upto(extras, all, it.index() as int)->Ok_0),
            all_prepared(prepared@, extras, all, it.index() as int),
    {
        let ghost m = merged_upto(extras, all, it.index() as int)->Ok_0;
        let ghost before = prepared@;
        match prepare_scene(builder, container, stats, scene, Ghost(m)) {
            Ok(p) => {
                prepared.push(p);
                proof {
                    assert forall|s: int| 0 <= s < it.index() + 1 implies prepared_from(
                        #[trigger] prepared@[s],
                        merged_upto(extras, all, s)->Ok_0,
                        all[s],
                    ) by {
                        if s < it.index() {
                            assert(prepared@[s] == before[s]);
                        }
                    }
                }
            },
            Err(e) => {
                proof {
                    lemma_merged_failure_stays(extras, all, it.index() + 1, all.len() as int);
                }
                return Err(e);
            },
        }
    }
    Ok(prepared)
}

/// Remaps the objects of every scene and gathers them in the builder.
fn gather_objects<'a>(
    builder: &mut SerializedFileBuilder,
    tpk: &TypeTreeCache,
    prepared: Vec<PreparedScene<'a>>,
    Ghost(extras): Ghost<Seq<ExtraObject>>,
    Ghost(scenes): Ghost<Seq<RepackScene>>,
) -> (r: Result<(), RepackError>)
    requires
        old(builder).objects@.len() == 0,
        merged_upto(extras, scenes, scenes.len() as int) is Ok,
        all_prepared(prepared@, extras, scenes, scenes.len() as int),
    ensures
        final(builder).serialized == old(builder).serialized,
        final(builder).next_path_id == old(builder).next_path_id,
        match r {
            Ok(()) => objects_upto(
                extras,
                scenes,
                scenes.len() as int,
                old(builder).serialized.types@,
                tpk,
            ) == Ok::<Seq<(ObjectInfo, Seq<u8>)>, RepackError>(with_bytes(final(builder).objects@)),
            Err(e) => objects_upto(
                extras,
                scenes,
                scenes.len() as int,
                old(builder).serialized.types@,
                tpk,
            ) == Err::<Seq<(ObjectInfo, Seq<u8>)>, RepackError>(e),
        },
{
    let ghost all = prepared@;
    let ghost types = builder.serialized.types@;
    assert(with_bytes(builder.objects@) =~= Seq::empty());
    for p in it: prepared
        invariant
            it.seq() == all,
            all_prepared(all, extras, scenes, scenes.len() as int),
            merged_upto(extras, scenes, scenes.len() as int) is Ok,
            builder.serialized == old(builder).serialized,
            builder.next_path_id == old(builder).next_path_id,
            types == old(builder).serialized.types@,
            objects_upto(extras, scenes, it.index() as int, types, tpk) == Ok::<
                Seq<(ObjectInfo, Seq<u8>)>,
                RepackError,
            >(with_bytes(builder.objects@)),
    {
        let ghost s = it.index() as int;
        let ghost before = builder.objects@;
        proof {
            lemma_merged_before(extras, scenes, s, scenes.len() as int);
            assert(prepared_from(all[s], merged_upto(extras, scenes, s)->Ok_0, scenes[s]));
        }
        let PreparedScene { objects, remap, data, replacements, mb_types, endianness } = p;
        match remap_objects(
            &builder.serialized,
            data,
            tpk,
            objects,
            &replacements,
            &mb_types,
            &remap,
            endianness,
        ) {
            Ok(out) => {
                let mut out = out;
                let ghost added = out@;
                builder.objects.append(&mut out);
                proof {
                    lemma_with_bytes_joined(before, added);
                }
            },
            Err(e) => {
                proof {
                    lemma_objects_failure_stays(extras, scenes, s + 1, scenes.len() as int, types, tpk);
                }
                return Err(e);
            },
        }
    }
    Ok(())
}

/// Plans the contents of an asset bundle.
///
/// First the objects outside the hierarchy are entered into the table of
/// the bundle, each with the file that holds it as an external. Then every
/// scene is taken into the merged file, in the order given: its surviving
/// objects get fresh path ids from 2 on, its externals, script types and
/// the types in use are appended, and its roots are entered into the
/// table under their new path ids. At last the surviving objects of every
/// scene are remapped and gathered. A scene that uses big ids or reference
/// types, a table that is not well formed and a limit of the format that
/// would be exceeded are failures.
pub fn pack_to_asset_bundle<'a>(
    tpk: &TypeTreeCache,
    scenes: Vec<RepackScene<'a>>,
    extra_objects: Vec<ExtraObject>,
) -> (r: Result<AssetBundlePlan, RepackError>)
    ensures
        packed_asset_bundle(extra_objects@, scenes@, tpk, r),
{
    let ghost all = scenes@;
    let mut builder = SerializedFileBuilder::new();
    let mut container = container_new();
    let mut stats = Stats::default();
    proof {
        assert(file_models(builder.serialized.externals@) =~= Seq::empty());
        assert(builder.serialized.script_types@ =~= Seq::empty());
        assert(builder.serialized.types@ =~= Seq::empty());
    }
    match add_extras(&mut builder, &mut container, stats, &extra_objects) {
        Ok(()) => {},
        Err(e) => {
            proof {
                lemma_merged_failure_stays(extra_objects@, all, 0, all.len() as int);
            }
            return Err(e);
        },
    }
    let prepared = match prepare_scenes(
        &mut builder,
        &mut container,
        &mut stats,
        scenes,
        Ghost(extra_objects@),
    ) {
        Ok(prepared) => prepared,
        Err(e) => {
            return Err(e);
        },
    };
    match gather_objects(&mut builder, tpk, prepared, Ghost(extra_objects@), Ghost(all)) {
        Ok(()) => {},
        Err(e) => {
            return Err(e);
        },
    }
    Ok(AssetBundlePlan { builder, container, stats })
}

/// The table of a scene bundle after the first `n` scenes were entered:
/// each scene that has a name is offered under the name of the bundle and
/// its own, and leads to nothing.
pub open spec fn scene_table(bundle_name: Seq<char>, scenes: Seq<RepackScene>, n: int) -> Seq<
    (Seq<char>, AssetInfo),
>
    decreases n,
{
    if n <= 0 {
        Seq::empty()
    } else {
        match scenes[n - 1].scene_name {
            Some(name) => put(
                scene_table(bundle_name, scenes, n - 1),
                scene_bundle_scene_name(bundle_name, name@),
                AssetInfo {
                    preload_index: 0,
                    preload_size: 0,
                    asset: Pptr { file_id: 0, path_id: 0 },
                },
            ),
            None => scene_table(bundle_name, scenes, n - 1),
        }
    }
}

/// The first `n` objects of a trimmed scene: each with its override or its
/// own bytes, and with the index that its type has among the types in use.
/// No pointer is remapped.
pub open spec fn trimmed_objects(
    objects: Seq<ObjectInfo>,
    n: int,
    data: Seq<u8>,
    replacements: Map<PathId, Vec<u8>>,
    types: Map<i32, i32>,
) -> Result<Seq<(ObjectInfo, Seq<u8>)>, RepackError>
    decreases n,
{
    if n <= 0 {
        Ok(Seq::empty())
    } else {
        match trimmed_objects(objects, n - 1, data, replacements, types) {
            Err(e) => Err(e),
            Ok(before) => match object_payload(objects[n - 1], data, replacements) {
                None => Err(RepackError::Parse),
                Some(bytes) => Ok(
                    before.push(
                        (ObjectInfo { type_id: types[objects[n - 1].type_id], ..objects[n - 1] }, bytes),
                    ),
                ),
            },
        }
    }
}

/// One scene of a scene bundle: the names of its two entries, the types
/// that are left, and its objects.
pub struct TrimmedScene {
    /// The name of the entry that holds the scene.
    pub name: String,
    /// The name of the entry that holds the shared assets of the scene.
    pub shared_assets_name: String,
    /// Whether the shared assets hold the object that describes the bundle.
    pub holds_bundle: bool,
    /// The file of the scene with the types that are in use; its object
    /// table is empty.
    pub serialized: SerializedFile,
    /// The surviving objects, each with its bytes.
    pub objects: Vec<(ObjectInfo, Vec<u8>)>,
}

/// Whether the trimmed scene is what is left of the scene.
pub open spec fn trimmed_from(
    t: TrimmedScene,
    bundle_name: Seq<char>,
    scene: RepackScene,
    first: bool,
) -> bool {
    let used = used_flags(survivors(scene), scene.serialized.types@.len());
    &&& scene.scene_name is Some
    &&& t.name@ == build_player_name(bundle_name, scene.scene_name->0@)
    &&& t.shared_assets_name@ == shared_assets_name(bundle_name, scene.scene_name->0@)
    &&& t.holds_bundle == first
    &&& t.serialized.types@ == kept(
        scene.serialized.types@,
        used,
        scene.serialized.types@.len() as int,
    )
    &&& t.serialized.objects@.len() == 0
    &&& t.serialized.externals == scene.serialized.externals
    &&& t.serialized.script_types == scene.serialized.script_types
    &&& t.serialized.endianness == scene.serialized.endianness
    &&& t.serialized.big_id_enabled == scene.serialized.big_id_enabled
    &&& t.serialized.ref_types == scene.serialized.ref_types
    &&& trimmed_objects(
        survivors(scene),
        survivors(scene).len() as int,
        scene.serialized_data@,
        scene.replacements@,
        type_remap(used, scene.serialized.types@.len() as int, 0),
    ) == Ok::<Seq<(ObjectInfo, Seq<u8>)>, RepackError>(with_bytes(t.objects@))
}

/// Why a scene cannot be trimmed, if it cannot: it has no name, its table
/// is not well formed or too long, or an object lies outside its bytes.
pub open spec fn trim_failure(scene: RepackScene) -> Option<RepackError> {
    let used = used_flags(survivors(scene), scene.serialized.types@.len());
    if scene.scene_name is None {
        Some(RepackError::Internal)
    } else if !scene.serialized.well_formed() {
        Some(RepackError::Parse)
    } else if scene.serialized.types@.len() > i32::MAX {
        Some(RepackError::Internal)
    } else {
        match trimmed_objects(
            survivors(scene),
            survivors(scene).len() as int,
            scene.serialized_data@,
            scene.replacements@,
            type_remap(used, scene.serialized.types@.len() as int, 0),
        ) {
            Err(e) => Some(e),
            Ok(_) => None,
        }
    }
}

pub proof fn lemma_trimmed_failure_stays(
    objects: Seq<ObjectInfo>,
    n: int,
    m: int,
    data: Seq<u8>,
    replacements: Map<PathId, Vec<u8>>,
    types: Map<i32, i32>,
)
    requires
        n <= m,
        trimmed_objects(objects, n, data, replacements, types) is Err,
    ensures
        trimmed_objects(objects, m, data, replacements, types) == trimmed_objects(
            objects,
            n,
            data,
            replacements,
            types,
        ),
    decreases m - n,
{
    if n < m {
        lemma_trimmed_failure_stays(objects, n, m - 1, data, replacements, types);
    }
}

pub proof fn lemma_trimmed_len(
    objects: Seq<ObjectInfo>,
    n: int,
    data: Seq<u8>,
    replacements: Map<PathId, Vec<u8>>,
    types: Map<i32, i32>,
)
    requires
        0 <= n,
        trimmed_objects(objects, n, data, replacements, types) is Ok,
    ensures
        trimmed_objects(objects, n, data, replacements, types)->Ok_0.len() == n,
    decreases n,
{
    if n > 0 {
        lemma_trimmed_len(objects, n - 1, data, replacements, types);
    }
}

/// Gathers the objects of a trimmed scene.
fn trim_objects(
    objects: &Vec<ObjectInfo>,
    data: &[u8],
    replacements: &FxHashMap<PathId, Vec<u8>>,
    types: &FxHashMap<i32, i32>,
) -> (r: Result<Vec<(ObjectInfo, Vec<u8>)>, RepackError>)
    requires
        forall|i: int|
            0 <= i < objects@.len() ==> types@.contains_key((#[trigger] objects@[i]).type_id),
    ensures
        match r {
            Ok(out) => trimmed_objects(
                objects@,
                objects@.len() as int,
                data@,
                replacements@,
                types@,
            ) == Ok::<Seq<(ObjectInfo, Seq<u8>)>, RepackError>(with_bytes(out@)),
            Err(e) => trimmed_objects(
                objects@,
                objects@.len() as int,
                data@,
                replacements@,
                types@,
            ) == Err::<Seq<(ObjectInfo, Seq<u8>)>, RepackError>(e),
        },
{
    broadcast use vstd::std_specs::hash::group_hash_axioms;

    let mut out: Vec<(ObjectInfo, Vec<u8>)> = Vec::new();
    let mut n: usize = 0;
    assert(with_bytes(out@) =~= Seq::empty());
    while n < objects.len()
        invariant
            n <= objects.len(),
            obeys_key_model::<i64>(),
            obeys_key_model::<i32>(),
            forall|i: int|
                0 <= i < objects@.len() ==> types@.contains_key((#[trigger] objects@[i]).type_id),
            trimmed_objects(objects@, n as int, data@, replacements@, types@) == Ok::<
                Seq<(ObjectInfo, Seq<u8>)>,
                RepackError,
            >(with_bytes(out@)),
        decreases objects.len() - n,
    {
        let obj = objects[n];
        let ghost before = with_bytes(out@);
        let payload: Option<Vec<u8>> = match fx_get(replacements, &obj.path_id) {
            Some(owned) => Some(slice_to_vec(owned.as_slice())),
            None => {
                let len: usize = data.len();
                if obj.offset < 0 || obj.offset as u64 > len as u64 || obj.size as u64 > len as u64
                    - obj.offset as u64 {
                    None
                } else {
                    let start: usize = obj.offset as usize;
                    let end: usize = start + obj.size as usize;
                    Some(slice_to_vec(slice_subrange(data, start, end)))
                }
            },
        };
        let bytes = match payload {
            Some(bytes) => bytes,
            None => {
                proof {
                    lemma_trimmed_failure_stays(
                        objects@,
                        n + 1,
                        objects@.len() as int,
                        data@,
                        replacements@,
                        types@,
                    );
                }
                return Err(RepackError::Parse);
            },
        };
        assert(types@.contains_key(objects@[n as int].type_id));
        let type_id = match fx_get(types, &obj.type_id) {
            Some(t) => *t,
            None => obj.type_id,
        };
        let info = ObjectInfo {
            path_id: obj.path_id,
            offset: obj.offset,
            size: obj.size,
            type_id,
            class_id: obj.class_id,
            is_destroyed: obj.is_destroyed,
            script_type_index: obj.script_type_index,
            stripped: obj.stripped,
        };
        out.push((info, bytes));
        assert(with_bytes(out@) =~= before.push((info, bytes@)));
        n += 1;
    }
    Ok(out)
}

/// What the remap of types holds for an index in use.
pub proof fn lemma_type_remap_has(used: Seq<bool>, n: int, base: int, index: int)
    requires
        0 <= index < n,
        used[index],
    ensures
        type_remap(used, n, base).contains_key(index as i32),
    decreases n,
{
    if index < n - 1 {
        lemma_type_remap_has(used, n - 1, base, index);
    }
}

/// Cuts a scene down to its surviving objects and the types in use.
fn trim_scene<'a>(bundle_name: &str, scene: RepackScene<'a>, first: bool) -> (r: Result<
    TrimmedScene,
    RepackError,
>)
    ensures
        match r {
            Ok(t) => trim_failure(scene) is None && trimmed_from(t, bundle_name@, scene, first),
            Err(e) => trim_failure(scene) == Some(e),
        },
{
    let RepackScene {
        original_name,
        scene_name,
        serialized,
        serialized_data,
        keep_objects,
        roots,
        replacements,
        monobehaviour_types,
    } = scene;
    let mut serialized = serialized;
    let name: String = match &scene_name {
        Some(name) => name.clone(),
        None => {
            return Err(RepackError::Internal);
        },
    };
    if !serialized.is_well_formed() {
        return Err(RepackError::Parse);
    }
    if serialized.types.len() > 0x7fff_ffff {
        return Err(RepackError::Internal);
    }
    let kept_objects = retain_objects(&serialized.objects, &keep_objects);
    proof {
        lemma_retained_well_formed(serialized.objects@, keep_objects@, serialized.types@.len());
    }
    serialized.objects = kept_objects;
    let type_remap = prune_types(&mut serialized);
    proof {
        let used = used_flags(serialized.objects@, scene.serialized.types@.len());
        assert forall|i: int| 0 <= i < serialized.objects@.len() implies type_remap@.contains_key(
            (#[trigger] serialized.objects@[i]).type_id,
        ) by {
            let t = serialized.objects@[i].type_id;
            assert(used[t as int]);
            lemma_type_remap_has(used, scene.serialized.types@.len() as int, 0, t as int);
        }
    }
    let objects = match trim_objects(&serialized.objects, serialized_data, &replacements, &type_remap) {
        Ok(objects) => objects,
        Err(e) => {
            return Err(e);
        },
    };
    serialized.objects = Vec::new();
    Ok(
        TrimmedScene {
            name: get_build_player_name(bundle_name, name.as_str()),
            shared_assets_name: get_shared_assets_name(bundle_name, name.as_str()),
            holds_bundle: first,
            serialized,
            objects,
        },
    )
}

/// The contents of a scene bundle but for the objects of the shared assets.
pub struct SceneBundlePlan {
    /// The table of the bundle: one entry for each scene.
    pub container: IndexMap<String, AssetInfo>,
    /// The scenes, in the order given.
    pub scenes: Vec<TrimmedScene>,
    /// The counts; the size of the output is filled in when it is written.
    pub stats: Stats,
}

/// The failure of the first of the first `n` scenes that cannot be trimmed
/// or whose counts do not fit, if there is one.
pub open spec fn scenes_failure(scenes: Seq<RepackScene>, n: int) -> Option<RepackError>
    decreases n,
{
    if n <= 0 {
        None
    } else {
        match scenes_failure(scenes, n - 1) {
            Some(e) => Some(e),
            None => match trim_failure(scenes[n - 1]) {
                Some(e) => Some(e),
                None => if objects_upto_count(scenes, n) > usize::MAX || bytes_upto_count(scenes, n)
                    > usize::MAX {
                    Some(RepackError::Internal)
                } else {
                    None
                },
            },
        }
    }
}

/// How many objects the first `n` scenes hold.
pub open spec fn objects_upto_count(scenes: Seq<RepackScene>, n: int) -> nat
    decreases n,
{
    if n <= 0 {
        0
    } else {
        objects_upto_count(scenes, n - 1) + scenes[n - 1].serialized.objects@.len()
    }
}

/// How many objects of the first `n` scenes survive.
pub open spec fn survivors_upto_count(scenes: Seq<RepackScene>, n: int) -> nat
    decreases n,
{
    if n <= 0 {
        0
    } else {
        survivors_upto_count(scenes, n - 1) + survivors(scenes[n - 1]).len()
    }
}

/// How many bytes the first `n` scenes hold.
pub open spec fn bytes_upto_count(scenes: Seq<RepackScene>, n: int) -> nat
    decreases n,
{
    if n <= 0 {
        0
    } else {
        bytes_upto_count(scenes, n - 1) + scenes[n - 1].serialized_data@.len()
    }
}

/// What `pack_to_scene_bundle` promises.
pub open spec fn packed_scene_bundle(
    bundle_name: Seq<char>,
    scenes: Seq<RepackScene>,
    r: Result<SceneBundlePlan, RepackError>,
) -> bool {
    match scenes_failure(scenes, scenes.len() as int) {
        Some(e) => r == Err::<SceneBundlePlan, RepackError>(e),
        None => {
            &&& r is Ok
            &&& container_entries(r->Ok_0.container) == scene_table(
                bundle_name,
                scenes,
                scenes.len() as int,
            )
            &&& r->Ok_0.scenes@.len() == scenes.len()
            &&& forall|s: int|
                0 <= s < scenes.len() ==> trimmed_from(
                    #[trigger] r->Ok_0.scenes@[s],
                    bundle_name,
                    scenes[s],
                    s == 0,
                )
            &&& r->Ok_0.stats.objects_before == objects_upto_count(scenes, scenes.len() as int)
            &&& r->Ok_0.stats.objects_after == survivors_upto_count(scenes, scenes.len() as int)
            &&& r->Ok_0.stats.size_before == bytes_upto_count(scenes, scenes.len() as int)
            &&& r->Ok_0.stats.size_after == 0
        },
    }
}

pub proof fn lemma_scenes_failure_stays(scenes: Seq<RepackScene>, n: int, m: int)
    requires
        n <= m,
        scenes_failure(scenes, n) is Some,
    ensures
        scenes_failure(scenes, m) == scenes_failure(scenes, n),
    decreases m - n,
{
    if n < m {
        lemma_scenes_failure_stays(scenes, n, m - 1);
    }
}

/// The table of a scene bundle.
fn scene_bundle_table(bundle_name: &str, scenes: &Vec<RepackScene>) -> (container: IndexMap<
    String,
    AssetInfo,
>)
    ensures
        container_entries(container) == scene_table(bundle_name@, scenes@, scenes@.len() as int),
{
    let mut container = container_new();
    let mut n: usize = 0;
    while n < scenes.len()
        invariant
            n <= scenes.len(),
            container_entries(container) == scene_table(bundle_name@, scenes@, n as int),
        decreases scenes.len() - n,
    {
        match &scenes[n].scene_name {
            Some(name) => {
                container_insert(
                    &mut container,
                    get_scene_bundle_scene_name(bundle_name, name.as_str()),
                    AssetInfo::empty(),
                );
            },
            None => {},
        }
        n += 1;
    }
    container
}

/// Plans the contents of a scene bundle.
///
/// Every scene with a name gets an entry in the table of the bundle. Each
/// scene is cut down to its surviving objects and to the types that these
/// are of; an object has its override as its bytes where it has one. No
/// pointer is remapped. The shared assets of the first scene hold the
/// object that describes the bundle.
pub fn pack_to_scene_bundle<'a>(bundle_name: &str, scenes: Vec<RepackScene<'a>>) -> (r: Result<
    SceneBundlePlan,
    RepackError,
>)
    ensures
        packed_scene_bundle(bundle_name@, scenes@, r),
{
    let ghost all = scenes@;
    let container = scene_bundle_table(bundle_name, &scenes);
    let mut stats = Stats::default();
    let mut trimmed: Vec<TrimmedScene> = Vec::new();
    let mut first: bool = true;
    for scene in it: scenes
        invariant
            it.seq() == all,
            first == (it.index() == 0),
            scenes_failure(all, it.index() as int) is None,
            trimmed@.len() == it.index(),
            forall|s: int|
                0 <= s < it.index() ==> trimmed_from(
                    #[trigger] trimmed@[s],
                    bundle_name@,
                    all[s],
                    s == 0,
                ),
            stats.objects_before == objects_upto_count(all, it.index() as int),
            stats.objects_after == survivors_upto_count(all, it.index() as int),
            stats.objects_after <= stats.objects_before,
            stats.size_before == bytes_upto_count(all, it.index() as int),
            stats.size_after == 0,
    {
        let ghost before = trimmed@;
        let objects_before = scene.serialized.objects.len();
        let size_before = scene.serialized_data.len();
        proof {
            lemma_retained(
                scene.serialized.objects@,
                scene.keep_objects@,
                scene.serialized.objects@.len() as int,
            );
        }
        let one = match trim_scene(bundle_name, scene, first) {
            Ok(one) => one,
            Err(e) => {
                proof {
                    lemma_scenes_failure_stays(all, it.index() + 1, all.len() as int);
                }
                return Err(e);
            },
        };
        let counted: Option<(usize, usize)> = match stats.objects_before.checked_add(objects_before) {
            Some(v) => match stats.size_before.checked_add(size_before) {
                Some(b) => Some((v, b)),
                None => None,
            },
            None => None,
        };
        match counted {
            Some((objects, bytes)) => {
                stats.objects_before = objects;
                stats.size_before = bytes;
            },
            None => {
                proof {
                    lemma_scenes_failure_stays(all, it.index() + 1, all.len() as int);
                }
                return Err(RepackError::Internal);
            },
        }
        proof {
            let this = all[it.index() as int];
            assert(with_bytes(one.objects@).len() == one.objects@.len());
            lemma_trimmed_len(
                survivors(this),
                survivors(this).len() as int,
                this.serialized_data@,
                this.replacements@,
                type_remap(
                    used_flags(survivors(this), this.serialized.types@.len()),
                    this.serialized.types@.len() as int,
                    0,
                ),
            );
        }
        stats.objects_after = stats.objects_after + one.objects.len();
        trimmed.push(one);
        first = false;
        proof {
            assert forall|s: int| 0 <= s < it.index() + 1 implies trimmed_from(
                #[trigger] trimmed@[s],
                bundle_name@,
                all[s],
                s == 0,
            ) by {
                if s < it.index() {
                    assert(trimmed@[s] == before[s]);
                }
            }
        }
    }
    Ok(SceneBundlePlan { container, scenes: trimmed, stats })
}

/// The objects of one scene that a shallow bundle points at: the name of
/// the scene, the name of its file, and for each object its hierarchy path
/// and the path id of its game object.
#[derive(Debug)]
pub struct ShallowScene {
    pub scene_name: String,
    pub file_name: String,
    pub objects: Vec<(String, PathId)>,
}

/// The externals and the table of a bundle that holds no objects of its own.
pub struct ShallowPlan {
    pub externals: Vec<FileIdentifier>,
    pub container: IndexMap<String, AssetInfo>,
}

/// The table after the first `n` objects of a scene were entered: each is
/// offered under the scene's name and its path, and leads into the file
/// with the given file id.
pub open spec fn with_shallow_objects(
    container: Seq<(Seq<char>, AssetInfo)>,
    scene_name: Seq<char>,
    file_id: i32,
    objects: Seq<(String, PathId)>,
    n: int,
) -> Seq<(Seq<char>, AssetInfo)>
    decreases n,
{
    if n <= 0 {
        container
    } else {
        put(
            with_shallow_objects(container, scene_name, file_id, objects, n - 1),
            asset_bundle_object_asset_name(scene_name, objects[n - 1].0@),
            AssetInfo {
                preload_index: 0,
                preload_size: 0,
                asset: Pptr { file_id, path_id: objects[n - 1].1 },
            },
        )
    }
}

/// The externals and the table of a shallow bundle after the objects
/// outside the hierarchy and the first `n` scenes were entered. Each scene
/// brings its file as an external.
pub open spec fn shallow_upto(extras: Seq<ExtraObject>, scenes: Seq<ShallowScene>, n: int) -> Result<
    (Seq<FileIdentifierModel>, Seq<(Seq<char>, AssetInfo)>),
    RepackError,
>
    decreases n,
{
    if n <= 0 {
        match with_extras(extras, extras.len() as int) {
            Err(e) => Err(e),
            Ok(m) => Ok((m.externals, m.container)),
        }
    } else {
        match shallow_upto(extras, scenes, n - 1) {
            Err(e) => Err(e),
            Ok(before) => if before.0.len() >= i32::MAX {
                Err(RepackError::Internal)
            } else {
                let scene = scenes[n - 1];
                Ok(
                    (
                        before.0.push(named_file(scene.file_name@)),
                        with_shallow_objects(
                            before.1,
                            scene.scene_name@,
                            (before.0.len() + 1) as i32,
                            scene.objects@,
                            scene.objects@.len() as int,
                        ),
                    ),
                )
            },
        }
    }
}

pub proof fn lemma_shallow_failure_stays(
    extras: Seq<ExtraObject>,
    scenes: Seq<ShallowScene>,
    n: int,
    m: int,
)
    requires
        0 <= n <= m,
        shallow_upto(extras, scenes, n) is Err,
    ensures
        shallow_upto(extras, scenes, m) == shallow_upto(extras, scenes, n),
    decreases m - n,
{
    if n < m {
        lemma_shallow_failure_stays(extras, scenes, n, m - 1);
    }
}

/// Plans a bundle that holds no objects of its own and only points into
/// the files of the game.
///
/// The objects outside the hierarchy are entered first, each with the file
/// that holds it as an external. Then every scene brings its file as an
/// external, and each of its objects is offered under the scene's name
/// and its path.
pub fn create_shallow_assetbundle(objects: &Vec<ShallowScene>, extra_objects: &Vec<ExtraObject>)
    -> (r: Result<ShallowPlan, RepackError>)
    ensures
        match r {
            Ok(plan) => shallow_upto(extra_objects@, objects@, objects@.len() as int) == Ok::<
                (Seq<FileIdentifierModel>, Seq<(Seq<char>, AssetInfo)>),
                RepackError,
            >((file_models(plan.externals@), container_entries(plan.container))),
            Err(e) => shallow_upto(extra_objects@, objects@, objects@.len() as int) == Err::<
                (Seq<FileIdentifierModel>, Seq<(Seq<char>, AssetInfo)>),
                RepackError,
            >(e),
        },
{
    let mut builder = SerializedFileBuilder::new();
    let mut container = container_new();
    let stats = Stats::default();
    proof {
        assert(file_models(builder.serialized.externals@) =~= Seq::empty());
        assert(builder.serialized.script_types@ =~= Seq::empty());
        assert(builder.serialized.types@ =~= Seq::empty());
    }
    match add_extras(&mut builder, &mut container, stats, extra_objects) {
        Ok(()) => {},
        Err(e) => {
            proof {
                lemma_shallow_failure_stays(extra_objects@, objects@, 0, objects@.len() as int);
            }
            return Err(e);
        },
    }
    let mut n: usize = 0;
    while n < objects.len()
        invariant
            n <= objects.len(),
            shallow_upto(extra_objects@, objects@, n as int) == Ok::<
                (Seq<FileIdentifierModel>, Seq<(Seq<char>, AssetInfo)>),
                RepackError,
            >((file_models(builder.serialized.externals@), container_entries(container))),
        decreases objects.len() - n,
    {
        let ghost before = builder.serialized.externals@;
        proof {
            assert(file_models(before).len() == before.len());
        }
        if builder.serialized.externals.len() >= 0x7fff_ffff {
            proof {
                lemma_shallow_failure_stays(extra_objects@, objects@, n + 1, objects@.len() as int);
            }
            return Err(RepackError::Internal);
        }
        let scene = &objects[n];
        let file_index = builder.add_external_uncached(FileIdentifier::new(scene.file_name.clone()));
        proof {
            assert(file_models(builder.serialized.externals@) =~= file_models(before).push(
                named_file(scene.file_name@),
            ));
        }
        let ghost start = container_entries(container);
        let mut k: usize = 0;
        while k < scene.objects.len()
            invariant
                k <= scene.objects.len(),
                container_entries(container) == with_shallow_objects(
                    start,
                    scene.scene_name@,
                    file_index,
                    scene.objects@,
                    k as int,
                ),
            decreases scene.objects.len() - k,
        {
            let info = AssetInfo::new(Pptr::new(file_index, scene.objects[k].1));
            container_insert(
                &mut container,
                get_asset_bundle_object_asset_name(
                    scene.scene_name.as_str(),
                    scene.objects[k].0.as_str(),
                ),
                info,
            );
            k += 1;
        }
        n += 1;
    }
    Ok(ShallowPlan { externals: builder.serialized.externals, container })
}

/// The objects that the roots stand for in a shallow bundle: each with its
/// path and the path id of its game object.
pub open spec fn shallow_objects(roots: Seq<KeptRoot>) -> Seq<(Seq<char>, PathId)> {
    Seq::new(roots.len(), |i: int| (roots[i].path@, roots[i].game_object.path_id))
}

/// The objects with their paths as plain text.
pub open spec fn plain_objects(objects: Seq<(String, PathId)>) -> Seq<(Seq<char>, PathId)> {
    Seq::new(objects.len(), |i: int| (objects[i].0@, objects[i].1))
}

/// What is selected of a scene for a shallow bundle.
pub struct ShallowSelection {
    /// The objects found: for each its path and the path id of its game object.
    pub objects: Vec<(String, PathId)>,
    /// The paths that lead to nothing.
    pub missing: Vec<String>,
    /// The paths that repeat an earlier one.
    pub duplicates: Vec<String>,
}

/// Whether the list holds the given texts, one for one.
pub open spec fn texts_are(list: Seq<String>, texts: Seq<Seq<char>>) -> bool {
    &&& list.len() == texts.len()
    &&& forall|i: int| 0 <= i < list.len() ==> (#[trigger] list[i])@ == texts[i]
}

/// Selects the objects of a scene that a shallow bundle points at.
///
/// The paths are freed of repetitions and looked up in the scene. Each that
/// is found selects the game object of the transform it leads to.
pub fn select_shallow(scene: &SceneObjects, object_paths: &Vec<String>) -> (r: Result<
    ShallowSelection,
    RepackError,
>)
    ensures
        match r {
            Ok(chosen) => exists|paths: Seq<String>|
                {
                    &&& #[trigger] texts_are(
                        paths,
                        deduplicated(object_paths@, object_paths@.len() as int),
                    )
                    &&& roots_upto(scene, scene.transforms@.len() as int) is Ok
                    &&& selection(
                        scene,
                        roots_upto(scene, scene.transforms@.len() as int)->Ok_0,
                        paths,
                        paths.len() as int,
                    ) is Ok
                    &&& plain_objects(chosen.objects@) == shallow_objects(
                        selection(
                            scene,
                            roots_upto(scene, scene.transforms@.len() as int)->Ok_0,
                            paths,
                            paths.len() as int,
                        )->Ok_0.0,
                    )
                    &&& chosen.missing@ == selection(
                        scene,
                        roots_upto(scene, scene.transforms@.len() as int)->Ok_0,
                        paths,
                        paths.len() as int,
                    )->Ok_0.1
                    &&& chosen.duplicates@ == repeated(object_paths@, object_paths@.len() as int)
                },
            Err(e) => roots_upto(scene, scene.transforms@.len() as int) == Err::<
                Seq<crate::scene_lookup::Root>,
                RepackError,
            >(e) || exists|paths: Seq<String>|
                {
                    &&& #[trigger] texts_are(
                        paths,
                        deduplicated(object_paths@, object_paths@.len() as int),
                    )
                    &&& roots_upto(scene, scene.transforms@.len() as int) is Ok
                    &&& selection(
                        scene,
                        roots_upto(scene, scene.transforms@.len() as int)->Ok_0,
                        paths,
                        paths.len() as int,
                    ) == Err::<(Seq<KeptRoot>, Seq<String>), RepackError>(e)
                },
        },
{
    let (set, duplicates) = deduplicate_objects(object_paths);
    let paths = path_set_to_vec(&set);
    assert(texts_are(paths@, deduplicated(object_paths@, object_paths@.len() as int)));
    let lookup = match SceneLookup::new(scene) {
        Ok(lookup) => lookup,
        Err(e) => {
            return Err(e);
        },
    };
    let (roots, missing) = match select_paths(&lookup, &paths) {
        Ok(chosen) => chosen,
        Err(e) => {
            return Err(e);
        },
    };
    let mut objects: Vec<(String, PathId)> = Vec::new();
    let mut n: usize = 0;
    while n < roots.len()
        invariant
            n <= roots.len(),
            plain_objects(objects@) == shallow_objects(roots@.take(n as int)),
        decreases roots.len() - n,
    {
        let ghost before = objects@;
        objects.push((roots[n].path.clone(), roots[n].game_object.path_id));
        proof {
            let now = plain_objects(objects@);
            let want = shallow_objects(roots@.take(n + 1));
            assert(plain_objects(before).len() == n);
            assert forall|i: int| 0 <= i < now.len() implies now[i] == want[i] by {
                if i < n {
                    assert(objects@[i] == before[i]);
                    assert(plain_objects(before)[i] == shallow_objects(roots@.take(n as int))[i]);
                }
            }
            assert(now =~= want);
        }
        n += 1;
    }
    assert(roots@.take(n as int) =~= roots@);
    Ok(ShallowSelection { objects, missing, duplicates })
}

/// What repacking one scene decides, and the paths that were asked for twice.
pub struct RepackedScene {
    pub pruned: Pruned,
    pub duplicates: Vec<String>,
}

/// Decides what is kept of one scene.
///
/// The paths are freed of repetitions; then the scene is pruned to what
/// they select.
pub fn repack_scene(
    scene: &SceneObjects,
    file: &SerializedFile,
    data: &[u8],
    tpk: &TypeTreeCache,
    object_paths: &Vec<String>,
    disable_roots: bool,
) -> (r: Result<RepackedScene, RepackError>)
    ensures
        exists|paths: Seq<String>|
            {
                &&& #[trigger] texts_are(paths, deduplicated(object_paths@, object_paths@.len() as int))
                &&& pruned_scene(
                    scene,
                    file,
                    data@,
                    tpk,
                    paths,
                    disable_roots,
                    match r {
                        Ok(done) => Ok(done.pruned),
                        Err(e) => Err(e),
                    },
                )
            },
        r is Ok ==> r->Ok_0.duplicates@ == repeated(object_paths@, object_paths@.len() as int),
{
    let (set, duplicates) = deduplicate_objects(object_paths);
    let paths = path_set_to_vec(&set);
    assert(texts_are(paths@, deduplicated(object_paths@, object_paths@.len() as int)));
    match prune_scene(scene, file, data, tpk, &paths, disable_roots) {
        Ok(pruned) => Ok(RepackedScene { pruned, duplicates }),
        Err(e) => Err(e),
    }
}

/// The name of the file of an assembly: the name of the assembly, with
/// `.dll` behind it unless it ends so.
pub open spec fn assembly_file(assembly_name: Seq<char>) -> Seq<char> {
    if ".dll"@.is_suffix_of(assembly_name) {
        assembly_name
    } else {
        assembly_name + ".dll"@
    }
}

/// The name of the file of an assembly.
pub fn assembly_file_name(assembly_name: String) -> (r: String)
    ensures
        r@ == assembly_file(assembly_name@),
{
    if str_ends_with(assembly_name.as_str(), ".dll") {
        assembly_name
    } else {
        assembly_name.concat(".dll")
    }
}

/// The position of the first among the classes, at or behind `from`, that
/// bears the name.
pub open spec fn class_position(classes: Seq<(String, Vec<String>)>, class_name: Seq<char>, from: int)
    -> Option<int>
    decreases classes.len() - from,
{
    if from < 0 || from >= classes.len() {
        None
    } else if classes[from].0@ == class_name {
        Some(from)
    } else {
        class_position(classes, class_name, from + 1)
    }
}

/// Whether one of the names is the given one.
pub open spec fn names_hold(names: Seq<String>, name: Seq<char>) -> bool {
    exists|i: int| 0 <= i < names.len() && (#[trigger] names[i])@ == name
}

/// Whether an object of the class with the given name is asked for.
pub open spec fn extra_wanted(
    extra_objects: Seq<(String, Vec<String>)>,
    class_name: Seq<char>,
    object_name: Seq<char>,
) -> bool {
    match class_position(extra_objects, class_name, 0) {
        Some(i) => names_hold(extra_objects[i].1@, object_name),
        None => false,
    }
}

/// Whether one of the names is the given one.
fn holds_name(names: &Vec<String>, name: &str) -> (r: bool)
    ensures
        r == names_hold(names@, name@),
{
    let mut i: usize = 0;
    while i < names.len()
        invariant
            i <= names.len(),
            forall|k: int| 0 <= k < i ==> (#[trigger] names@[k])@ != name@,
        decreases names.len() - i,
    {
        if str_eq(names[i].as_str(), name) {
            return true;
        }
        i += 1;
    }
    false
}

/// Tests whether an object outside the hierarchy is asked for: one of the
/// given script class with the given name.
pub fn is_extra_wanted(extra_objects: &Vec<(String, Vec<String>)>, class_name: &str, object_name: &str)
    -> (r: bool)
    ensures
        r == extra_wanted(extra_objects@, class_name@, object_name@),
{
    let mut i: usize = 0;
    while i < extra_objects.len()
        invariant
            i <= extra_objects.len(),
            class_position(extra_objects@, class_name@, 0) == class_position(
                extra_objects@,
                class_name@,
                i as int,
            ),
        decreases extra_objects.len() - i,
    {
        if str_eq(extra_objects[i].0.as_str(), class_name) {
            return holds_name(&extra_objects[i].1, object_name);
        }
        i += 1;
    }
    false
}

/// Whether one of the objects found is of the class and bears the name.
pub open spec fn extra_found(found: Seq<ExtraObject>, class_name: Seq<char>, object_name: Seq<char>)
    -> bool {
    exists|i: int|
        0 <= i < found.len() && (#[trigger] found[i]).2@ == class_name && found[i].3@ == object_name
}

/// Tests whether an object that was asked for was found.
pub fn is_extra_found(found: &Vec<ExtraObject>, class_name: &str, object_name: &str) -> (r: bool)
    ensures
        r == extra_found(found@, class_name@, object_name@),
{
    let mut i: usize = 0;
    while i < found.len()
        invariant
            i <= found.len(),
            forall|k: int|
                0 <= k < i ==> !((#[trigger] found@[k]).2@ == class_name@ && found@[k].3@
                    == object_name@),
        decreases found.len() - i,
    {
        if str_eq(found[i].2.as_str(), class_name) && str_eq(found[i].3.as_str(), object_name) {
            return true;
        }
        i += 1;
    }
    false
}

/// The file that holds the scene with the given name, if the build has
/// such a scene. Of several scenes with one name the last counts.
pub fn scene_file_name(build_settings: &BuildSettings, scene_name: &str) -> (r: Option<String>)
    ensures
        match r {
            Some(file) => last_scene_named(
                build_settings.scenes@,
                scene_name@,
                build_settings.scenes@.len() as int,
            ) is Some && file@ == level_name(
                last_scene_named(
                    build_settings.scenes@,
                    scene_name@,
                    build_settings.scenes@.len() as int,
                )->0 as nat,
            ),
            None => last_scene_named(
                build_settings.scenes@,
                scene_name@,
                build_settings.scenes@.len() as int,
            ) is None,
        },
{
    match build_settings.scene_index(scene_name) {
        Some(index) => Some(level_file_name(index)),
        None => None,
    }
}

/// The index of the scene that a file of the game holds: the number in
/// the name of a level file, if the build has so many scenes.
pub fn scene_of_file(scene_count: usize, file_name: &str) -> (r: Option<usize>)
    ensures
        r == (match level_index_of(file_name@) {
            Some(index) => if index < scene_count {
                Some(index)
            } else {
                None
            },
            None => None,
        }),
{
    match level_index(file_name) {
        Some(index) => if index < scene_count {
            Some(index)
        } else {
            None
        },
        None => None,
    }
}

/// The path id of the object that describes a bundle.
pub const BUNDLE_PATH_ID: PathId = 1;

/// What the shared assets of a scene preload.
#[derive(Debug)]
pub struct PreloadData {
    pub name: String,
    pub assets: Vec<Pptr>,
    pub dependencies: Vec<String>,
    pub explicit_data_layout: bool,
}

/// The object that describes a bundle.
pub struct AssetBundle {
    pub name: String,
    pub preload_table: Vec<Pptr>,
    pub container: IndexMap<String, AssetInfo>,
    pub main_asset: AssetInfo,
    pub runtime_compatibility: u32,
    pub asset_bundle_name: String,
    pub dependencies: Vec<String>,
    pub is_streamed_scene_asset_bundle: bool,
    pub explicit_data_layout: i32,
    pub path_flags: i32,
    pub scene_hashes: Vec<(String, String)>,
}

/// The pointer by which the shared assets of a scene name the scene's own
/// preload table.
pub open spec fn scene_preload_pointer() -> Pptr {
    Pptr { file_id: 1, path_id: 10001 }
}

/// What the shared assets of every scene preload: the scene's own preload
/// table.
pub fn scene_preload_data() -> (r: PreloadData)
    ensures
        r.name@ == Seq::<char>::empty(),
        r.assets@ == seq![scene_preload_pointer()],
        r.dependencies@.len() == 0,
        !r.explicit_data_layout,
{
    let mut assets: Vec<Pptr> = Vec::new();
    assets.push(Pptr { file_id: 1, path_id: 10001 });
    PreloadData {
        name: String::new(),
        assets,
        dependencies: Vec::new(),
        explicit_data_layout: false,
    }
}

/// Whether the object describes a bundle of the given name and table, of
/// streamed scenes or of single objects.
pub open spec fn describes(
    bundle: AssetBundle,
    name: Seq<char>,
    asset_bundle_name: Seq<char>,
    table: Seq<(Seq<char>, AssetInfo)>,
    streamed: bool,
) -> bool {
    &&& bundle.name@ == name
    &&& bundle.asset_bundle_name@ == asset_bundle_name
    &&& bundle.preload_table@.len() == 0
    &&& container_entries(bundle.container) == table
    &&& bundle.main_asset == (AssetInfo {
        preload_index: 0,
        preload_size: 0,
        asset: Pptr { file_id: 0, path_id: 0 },
    })
    &&& bundle.runtime_compatibility == 1
    &&& bundle.dependencies@.len() == 0
    &&& bundle.is_streamed_scene_asset_bundle == streamed
    &&& bundle.explicit_data_layout == 0
    &&& bundle.path_flags == 7
    &&& bundle.scene_hashes@.len() == 0
}

/// The object that describes a bundle of streamed scenes.
pub fn scene_bundle_object(bundle_name: &str, container: IndexMap<String, AssetInfo>) -> (r:
    AssetBundle)
    ensures
        describes(r, bundle_name@, Seq::empty(), container_entries(container), true),
{
    AssetBundle {
        name: bundle_name.to_owned(),
        preload_table: Vec::new(),
        container,
        main_asset: AssetInfo::empty(),
        runtime_compatibility: 1,
        asset_bundle_name: String::new(),
        dependencies: Vec::new(),
        is_streamed_scene_asset_bundle: true,
        explicit_data_layout: 0,
        path_flags: 7,
        scene_hashes: Vec::new(),
    }
}

/// The object that describes a bundle of single objects.
pub fn asset_bundle_object(bundle_name: &str, container: IndexMap<String, AssetInfo>) -> (r:
    AssetBundle)
    ensures
        describes(r, bundle_name@, bundle_name@, container_entries(container), false),
{
    AssetBundle {
        name: bundle_name.to_owned(),
        preload_table: Vec::new(),
        container,
        main_asset: AssetInfo::empty(),
        runtime_compatibility: 1,
        asset_bundle_name: bundle_name.to_owned(),
        dependencies: Vec::new(),
        is_streamed_scene_asset_bundle: false,
        explicit_data_layout: 0,
        path_flags: 7,
        scene_hashes: Vec::new(),
    }
}

/// The object that describes a bundle that only points into the files of
/// the game.
pub fn shallow_bundle_object(bundle_name: &str, container: IndexMap<String, AssetInfo>) -> (r:
    AssetBundle)
    ensures
        describes(r, bundle_name@, Seq::empty(), container_entries(container), false),
{
    AssetBundle {
        name: bundle_name.to_owned(),
        preload_table: Vec::new(),
        container,
        main_asset: AssetInfo::empty(),
        runtime_compatibility: 1,
        asset_bundle_name: String::new(),
        dependencies: Vec::new(),
        is_streamed_scene_asset_bundle: false,
        explicit_data_layout: 0,
        path_flags: 7,
        scene_hashes: Vec::new(),
    }
}

} // verus!
