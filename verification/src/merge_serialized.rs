//! Merging the metadata and objects of many scenes into one output file.

use crate::error::RepackError;
use crate::fxmap::{fx_get, fx_insert, fx_new};
use crate::pptr::{FileId, PathId};
use crate::serialized::{
    types_in_range, FileIdentifier, ObjectInfo, ScriptType, SerializedFile, SerializedType,
};
use crate::typetree::TypeTreeNode;
use crate::typetree_cache::TypeTreeCache;
use crate::walker::{replace_pptrs_inplace_endianed, replaced, Endianness};
use rustc_hash::FxHashMap;
use vstd::prelude::*;
use vstd::slice::{slice_subrange, slice_to_vec};
use vstd::std_specs::hash::obeys_key_model;

verus! {

/// Accumulates the metadata and the objects of a file that is being built.
#[derive(Debug)]
pub struct SerializedFileBuilder {
    /// The path id that the next allocation hands out.
    pub next_path_id: PathId,
    /// The types, script types and externals gathered so far.
    pub serialized: SerializedFile,
    /// The objects gathered so far, each with its bytes.
    pub objects: Vec<(ObjectInfo, Vec<u8>)>,
}

impl SerializedFileBuilder {
    /// A builder without content. Its allocator starts at 2: path id 1 is
    /// left for the object that describes the bundle.
    pub fn new() -> (b: SerializedFileBuilder)
        ensures
            b.next_path_id == 2,
            b.serialized.endianness == Endianness::Little,
            b.serialized.big_id_enabled is None,
            b.serialized.ref_types == Some(0usize),
            b.serialized.types@.len() == 0,
            b.serialized.script_types@.len() == 0,
            b.serialized.externals@.len() == 0,
            b.serialized.objects@.len() == 0,
            b.objects@.len() == 0,
    {
        SerializedFileBuilder {
            next_path_id: 2,
            serialized: SerializedFile {
                endianness: Endianness::Little,
                big_id_enabled: None,
                types: Vec::new(),
                script_types: Vec::new(),
                externals: Vec::new(),
                objects: Vec::new(),
                ref_types: Some(0),
            },
            objects: Vec::new(),
        }
    }

    /// Hands out the next path id. The ids handed out increase by one.
    pub fn get_next_path_id(&mut self) -> (id: PathId)
        requires
            old(self).next_path_id < i64::MAX,
        ensures
            id == old(self).next_path_id,
            final(self).next_path_id == old(self).next_path_id + 1,
            final(self).serialized == old(self).serialized,
            final(self).objects == old(self).objects,
    {
        let id = self.next_path_id;
        self.next_path_id = id + 1;
        id
    }

    /// Appends a type and returns its index.
    pub fn add_type_uncached(&mut self, ty: SerializedType) -> (index: i32)
        requires
            old(self).serialized.types@.len() < i32::MAX,
        ensures
            index == old(self).serialized.types@.len(),
            final(self).serialized.types@ == old(self).serialized.types@.push(ty),
            final(self).serialized.script_types == old(self).serialized.script_types,
            final(self).serialized.externals == old(self).serialized.externals,
            final(self).serialized.objects == old(self).serialized.objects,
            final(self).serialized.endianness == old(self).serialized.endianness,
            final(self).serialized.big_id_enabled == old(self).serialized.big_id_enabled,
            final(self).serialized.ref_types == old(self).serialized.ref_types,
            final(self).next_path_id == old(self).next_path_id,
            final(self).objects == old(self).objects,
    {
        let index = self.serialized.types.len();
        self.serialized.types.push(ty);
        index as i32
    }

    /// Appends an external and returns the file id that pointers use for
    /// it: its position, counted from 1.
    pub fn add_external_uncached(&mut self, external: FileIdentifier) -> (file_id: FileId)
        requires
            old(self).serialized.externals@.len() < i32::MAX,
        ensures
            file_id == old(self).serialized.externals@.len() + 1,
            final(self).serialized.externals@ == old(self).serialized.externals@.push(external),
            final(self).serialized.types == old(self).serialized.types,
            final(self).serialized.script_types == old(self).serialized.script_types,
            final(self).serialized.objects == old(self).serialized.objects,
            final(self).serialized.endianness == old(self).serialized.endianness,
            final(self).serialized.big_id_enabled == old(self).serialized.big_id_enabled,
            final(self).serialized.ref_types == old(self).serialized.ref_types,
            final(self).next_path_id == old(self).next_path_id,
            final(self).objects == old(self).objects,
    {
        let index = self.serialized.externals.len();
        self.serialized.externals.push(external);
        (index + 1) as i32
    }

    /// Appends an object with its bytes.
    pub fn add_object(&mut self, info: ObjectInfo, data: Vec<u8>)
        ensures
            final(self).objects@ == old(self).objects@.push((info, data)),
            final(self).serialized == old(self).serialized,
            final(self).next_path_id == old(self).next_path_id,
    {
        self.objects.push((info, data));
    }
}

/// Where the path ids, file ids and type indices of one scene went in the
/// merged file.
#[derive(Debug)]
pub struct RemapSerializedIndices {
    pub path_id: FxHashMap<PathId, PathId>,
    pub file_id: FxHashMap<FileId, FileId>,
    pub types: FxHashMap<i32, i32>,
}

/// The new path ids of the first `n` objects: the `k`-th object gets the
/// `k`-th id from `base` on.
pub open spec fn path_remap(objects: Seq<ObjectInfo>, n: int, base: int) -> Map<PathId, PathId>
    decreases n,
{
    if n <= 0 {
        Map::empty()
    } else {
        path_remap(objects, n - 1, base).insert(objects[n - 1].path_id, (base + n - 1) as i64)
    }
}

/// The new file ids of a scene's first `n` externals, appended behind
/// `base` earlier ones. File ids count from 1.
pub open spec fn file_remap(n: int, base: int) -> Map<FileId, FileId>
    decreases n,
{
    if n <= 0 {
        Map::empty()
    } else {
        file_remap(n - 1, base).insert(n as i32, (base + n) as i32)
    }
}

/// A script type with its file index sent through the remap of file ids.
pub open spec fn remapped_script_type(st: ScriptType, files: Map<FileId, FileId>) -> ScriptType {
    ScriptType {
        local_serialized_file_index: if files.contains_key(st.local_serialized_file_index) {
            files[st.local_serialized_file_index]
        } else {
            st.local_serialized_file_index
        },
        local_identifier_in_file: st.local_identifier_in_file,
    }
}

/// The first `n` script types, each with its file index remapped.
pub open spec fn remapped_script_types(
    script_types: Seq<ScriptType>,
    files: Map<FileId, FileId>,
    n: int,
) -> Seq<ScriptType>
    decreases n,
{
    if n <= 0 {
        Seq::empty()
    } else {
        remapped_script_types(script_types, files, n - 1).push(
            remapped_script_type(script_types[n - 1], files),
        )
    }
}

/// Where the indices of `n` script types went that were appended behind
/// `base` earlier ones. An index that stays where it was has no entry.
pub open spec fn script_remap(n: int, base: int) -> Map<i16, i16>
    decreases n,
{
    if n <= 0 {
        Map::empty()
    } else if base == 0 {
        script_remap(n - 1, base)
    } else {
        script_remap(n - 1, base).insert((n - 1) as i16, (base + n - 1) as i16)
    }
}

/// The script type index of a type after the scene's `count` script types
/// were appended behind `base` earlier ones.
pub open spec fn remapped_script_index(index: i16, count: int, base: int) -> i16 {
    if 0 <= index < count {
        (base + index) as i16
    } else {
        index
    }
}

/// Whether one of the objects is of the type with the given index.
pub open spec fn is_used(objects: Seq<ObjectInfo>, index: int) -> bool {
    exists|k: int| 0 <= k < objects.len() && (#[trigger] objects[k]).type_id == index
}

/// For each of `n` type indices, whether one of the objects is of that type.
pub open spec fn used_flags(objects: Seq<ObjectInfo>, n: nat) -> Seq<bool> {
    Seq::new(n, |i: int| is_used(objects, i))
}

/// How many of the first `n` flags are set.
pub open spec fn kept_count(used: Seq<bool>, n: int) -> nat
    decreases n,
{
    if n <= 0 {
        0
    } else if used[n - 1] {
        kept_count(used, n - 1) + 1
    } else {
        kept_count(used, n - 1)
    }
}

/// Those of the first `n` items whose flag is set, in their order.
pub open spec fn kept<T>(items: Seq<T>, used: Seq<bool>, n: int) -> Seq<T>
    decreases n,
{
    if n <= 0 {
        Seq::empty()
    } else if used[n - 1] {
        kept(items, used, n - 1).push(items[n - 1])
    } else {
        kept(items, used, n - 1)
    }
}

/// The new indices of those of the first `n` items whose flag is set,
/// appended behind `base` earlier items.
pub open spec fn type_remap(used: Seq<bool>, n: int, base: int) -> Map<i32, i32>
    decreases n,
{
    if n <= 0 {
        Map::empty()
    } else if used[n - 1] {
        type_remap(used, n - 1, base).insert((n - 1) as i32, (base + kept_count(used, n - 1)) as i32)
    } else {
        type_remap(used, n - 1, base)
    }
}

/// The type as it enters the merged file: with its script type index moved.
pub open spec fn merged_type(ty: SerializedType, scripts: int, script_base: int) -> SerializedType {
    SerializedType {
        script_type_index: remapped_script_index(ty.script_type_index, scripts, script_base),
        ..ty
    }
}

/// The types of a scene as they enter the merged file.
pub open spec fn merged_types(types: Seq<SerializedType>, scripts: int, script_base: int) -> Seq<
    SerializedType,
> {
    Seq::new(types.len(), |i: int| merged_type(types[i], scripts, script_base))
}

pub proof fn lemma_kept_count_bound(used: Seq<bool>, n: int)
    requires
        0 <= n,
    ensures
        kept_count(used, n) <= n,
    decreases n,
{
    if n > 0 {
        lemma_kept_count_bound(used, n - 1);
    }
}

/// What the remap of script type indices holds.
pub proof fn lemma_script_remap(n: int, base: int, k: i16)
    requires
        0 <= n,
        0 <= base,
        base + n <= i16::MAX,
    ensures
        script_remap(n, base).contains_key(k) <==> (0 <= k < n && base != 0),
        script_remap(n, base).contains_key(k) ==> script_remap(n, base)[k] == base + k,
    decreases n,
{
    if n > 0 {
        lemma_script_remap(n - 1, base, k);
    }
}

/// Whether the merged file has room for the scene: the path ids stay in
/// the 64-bit range, the file ids and type indices in the 32-bit range and
/// the script type indices in the 16-bit range.
pub open spec fn fits(builder: &SerializedFileBuilder, file: &SerializedFile) -> bool {
    &&& builder.next_path_id + file.objects@.len() <= i64::MAX
    &&& builder.serialized.externals@.len() + file.externals@.len() <= i32::MAX
    &&& builder.serialized.script_types@.len() + file.script_types@.len() <= i16::MAX
    &&& builder.serialized.types@.len() + file.types@.len() <= i32::MAX
}

/// Tests whether the merged file has room for the scene.
pub fn check_fits(builder: &SerializedFileBuilder, file: &SerializedFile) -> (r: bool)
    ensures
        r == fits(builder, file),
{
    let objects = file.objects.len();
    let externals = builder.serialized.externals.len();
    let scripts = builder.serialized.script_types.len();
    let types = builder.serialized.types.len();
    builder.next_path_id as i128 + objects as i128 <= i64::MAX as i128
        && externals <= 0x7fff_ffff && file.externals.len() <= 0x7fff_ffff - externals
        && scripts <= 0x7fff && file.script_types.len() <= 0x7fff - scripts
        && types <= 0x7fff_ffff && file.types.len() <= 0x7fff_ffff - types
}

/// Moves the elements of `from` behind those of `into` and returns where
/// each index went. An index that stays where it was gets no entry.
pub fn remap_vecs_all<T>(from: &mut Vec<T>, into: &mut Vec<T>) -> (remap: FxHashMap<i16, i16>)
    requires
        old(into)@.len() + old(from)@.len() <= i16::MAX,
    ensures
        final(from)@.len() == 0,
        final(into)@ == old(into)@ + old(from)@,
        remap@ == script_remap(old(from)@.len() as int, old(into)@.len() as int),
{
    broadcast use vstd::std_specs::hash::group_hash_axioms;

    let mut taken: Vec<T> = Vec::new();
    core::mem::swap(from, &mut taken);
    let base: usize = into.len();
    let mut remap: FxHashMap<i16, i16> = fx_new();
    assert(remap@ =~= script_remap(0, base as int));
    for item in it: taken
        invariant
            it.seq() == old(from)@,
            base == old(into)@.len(),
            base + it.seq().len() <= i16::MAX,
            obeys_key_model::<i16>(),
            into@ == old(into)@ + it.seq().take(it.index() as int),
            remap@ == script_remap(it.index() as int, base as int),
    {
        let old_index: usize = into.len() - base;
        let new_index: usize = into.len();
        into.push(item);
        if old_index != new_index {
            fx_insert(&mut remap, old_index as i16, new_index as i16);
        }
        assert(into@ =~= old(into)@ + it.seq().take(it.index() + 1));
    }
    assert(old(from)@.take(old(from)@.len() as int) =~= old(from)@);
    remap
}

/// Moves those elements of `from` whose flag is set behind those of `into`
/// and returns where the index of each went. The other elements are dropped.
pub fn remap_vecs<T>(used_types: &Vec<bool>, from: &mut Vec<T>, into: &mut Vec<T>) -> (remap:
    FxHashMap<i32, i32>)
    requires
        used_types@.len() == old(from)@.len(),
        old(into)@.len() + old(from)@.len() <= i32::MAX,
    ensures
        final(from)@.len() == 0,
        final(into)@ == old(into)@ + kept(old(from)@, used_types@, old(from)@.len() as int),
        remap@ == type_remap(used_types@, old(from)@.len() as int, old(into)@.len() as int),
{
    broadcast use vstd::std_specs::hash::group_hash_axioms;

    let mut taken: Vec<T> = Vec::new();
    core::mem::swap(from, &mut taken);
    let base: usize = into.len();
    let mut remap: FxHashMap<i32, i32> = fx_new();
    let mut old_index: usize = 0;
    assert(remap@ =~= type_remap(used_types@, 0, base as int));
    for item in it: taken
        invariant
            it.seq() == old(from)@,
            used_types@.len() == it.seq().len(),
            base == old(into)@.len(),
            base + it.seq().len() <= i32::MAX,
            obeys_key_model::<i32>(),
            old_index == it.index(),
            into@ == old(into)@ + kept(it.seq(), used_types@, it.index() as int),
            into@.len() == base + kept_count(used_types@, it.index() as int),
            remap@ == type_remap(used_types@, it.index() as int, base as int),
    {
        proof {
            lemma_kept_count_bound(used_types@, it.index() as int);
        }
        if used_types[old_index] {
            let new_index: usize = into.len();
            fx_insert(&mut remap, old_index as i32, new_index as i32);
            into.push(item);
            assert(into@ =~= old(into)@ + kept(it.seq(), used_types@, it.index() + 1));
        }
        old_index += 1;
    }
    remap
}

/// For each type of the file, whether one of its objects is of that type.
pub fn collect_used_types(file: &SerializedFile) -> (used: Vec<bool>)
    requires
        file.well_formed(),
    ensures
        used@ == used_flags(file.objects@, file.types@.len()),
{
    collect_used_types_of(&file.objects, file.types.len())
}

/// For each of `types` type indices, whether one of the objects is of that
/// type.
fn collect_used_types_of(objects: &Vec<ObjectInfo>, types: usize) -> (used: Vec<bool>)
    requires
        types_in_range(objects@, types as nat),
    ensures
        used@ == used_flags(objects@, types as nat),
{
    let mut used: Vec<bool> = Vec::new();
    let mut t: usize = 0;
    while t < types
        invariant
            t <= types,
            used@.len() == t,
            forall|k: int| 0 <= k < t ==> !(#[trigger] used@[k]),
        decreases types - t,
    {
        used.push(false);
        t += 1;
    }
    let mut i: usize = 0;
    while i < objects.len()
        invariant
            i <= objects.len(),
            types_in_range(objects@, types as nat),
            used@.len() == types,
            forall|k: int|
                0 <= k < used@.len() ==> (#[trigger] used@[k]) == is_used(
                    objects@.take(i as int),
                    k,
                ),
        decreases objects.len() - i,
    {
        let type_id = objects[i].type_id;
        let ghost before = used@;
        used.set(type_id as usize, true);
        assert forall|k: int| 0 <= k < used@.len() implies (#[trigger] used@[k]) == is_used(
            objects@.take(i + 1),
            k,
        ) by {
            let now = objects@.take(i + 1);
            let earlier = objects@.take(i as int);
            if is_used(earlier, k) {
                let j = choose|j: int| 0 <= j < earlier.len() && (#[trigger] earlier[j]).type_id == k;
                assert(now[j].type_id == k);
            }
            if k == type_id {
                assert(now[i as int].type_id == k);
            }
            if is_used(now, k) {
                let j = choose|j: int| 0 <= j < now.len() && (#[trigger] now[j]).type_id == k;
                if j < i {
                    assert(earlier[j].type_id == k);
                }
            }
        }
        i += 1;
    }
    assert(objects@.take(i as int) =~= objects@);
    assert(used@ =~= used_flags(objects@, types as nat));
    used
}

/// Whether the file declares reference types, which cannot be merged.
pub open spec fn has_ref_types(file: &SerializedFile) -> bool {
    file.ref_types is Some && file.ref_types->0 > 0
}

/// How much the merged file holds before a scene is taken in.
pub struct Bases {
    pub next_path_id: int,
    pub externals: int,
    pub scripts: int,
    pub types: int,
}

/// How much the builder holds.
pub open spec fn bases_of(b: SerializedFileBuilder) -> Bases {
    Bases {
        next_path_id: b.next_path_id as int,
        externals: b.serialized.externals@.len() as int,
        scripts: b.serialized.script_types@.len() as int,
        types: b.serialized.types@.len() as int,
    }
}

/// Where the indices of a scene go when it is taken in: `objects` are the
/// objects that survive, `externals` and `types` the numbers of the scene's
/// externals and types.
pub open spec fn remap_from(objects: Seq<ObjectInfo>, externals: nat, types: nat, bases: Bases)
    -> RemapModel {
    RemapModel {
        paths: path_remap(objects, objects.len() as int, bases.next_path_id),
        files: file_remap(externals as int, bases.externals),
        types: type_remap(used_flags(objects, types), types as int, bases.types),
    }
}

/// Where the indices of a scene go when its metadata is merged into the
/// builder.
pub open spec fn scene_remap(b0: SerializedFileBuilder, f0: SerializedFile) -> RemapModel {
    remap_from(f0.objects@, f0.externals@.len(), f0.types@.len(), bases_of(b0))
}

/// The script types of a scene as they enter the merged file.
pub open spec fn merged_script_types(script_types: Seq<ScriptType>, externals: nat, bases: Bases)
    -> Seq<ScriptType> {
    remapped_script_types(
        script_types,
        file_remap(externals as int, bases.externals),
        script_types.len() as int,
    )
}

/// The types of a scene that enter the merged file: those in use, with
/// their script type index moved.
pub open spec fn merged_kept_types(
    types: Seq<SerializedType>,
    objects: Seq<ObjectInfo>,
    scripts: nat,
    bases: Bases,
) -> Seq<SerializedType> {
    kept(
        merged_types(types, scripts as int, bases.scripts),
        used_flags(objects, types.len()),
        types.len() as int,
    )
}

/// What merging the metadata of a scene does: the builder as it was
/// (`b0`) and is (`b1`), the scene's file as it was (`f0`) and is (`f1`),
/// and the remap that is returned.
///
/// Every object gets a fresh path id, in the order of the object table.
/// The externals, the script types and the types in use are appended to
/// the builder's, and each index that moved is recorded. The types and the
/// script types leave the scene's file.
pub open spec fn merged_meta(
    b0: SerializedFileBuilder,
    f0: SerializedFile,
    b1: SerializedFileBuilder,
    f1: SerializedFile,
    remap: RemapSerializedIndices,
) -> bool {
    let objects = f0.objects@;
    let files = file_remap(f0.externals@.len() as int, b0.serialized.externals@.len() as int);
    let scripts = f0.script_types@.len() as int;
    let script_base = b0.serialized.script_types@.len() as int;
    let used = used_flags(objects, f0.types@.len());
    &&& remap@ == scene_remap(b0, f0)
    &&& b1.next_path_id == b0.next_path_id + objects.len()
    &&& b1.objects == b0.objects
    &&& b1.serialized.externals@ == b0.serialized.externals@ + f0.externals@
    &&& b1.serialized.script_types@ == b0.serialized.script_types@ + merged_script_types(
        f0.script_types@,
        f0.externals@.len(),
        bases_of(b0),
    )
    &&& b1.serialized.types@ == b0.serialized.types@ + merged_kept_types(
        f0.types@,
        f0.objects@,
        f0.script_types@.len(),
        bases_of(b0),
    )
    &&& b1.serialized.objects == b0.serialized.objects
    &&& b1.serialized.endianness == b0.serialized.endianness
    &&& b1.serialized.big_id_enabled == b0.serialized.big_id_enabled
    &&& b1.serialized.ref_types == b0.serialized.ref_types
    &&& f1.types@.len() == 0
    &&& f1.script_types@.len() == 0
    &&& f1.externals == f0.externals
    &&& f1.objects == f0.objects
    &&& f1.endianness == f0.endianness
    &&& f1.big_id_enabled == f0.big_id_enabled
    &&& f1.ref_types == f0.ref_types
}

/// Gives every object of the file a fresh path id.
fn allocate_path_ids(builder: &mut SerializedFileBuilder, objects: &Vec<ObjectInfo>) -> (remap:
    FxHashMap<PathId, PathId>)
    requires
        old(builder).next_path_id + objects@.len() <= i64::MAX,
    ensures
        remap@ == path_remap(objects@, objects@.len() as int, old(builder).next_path_id as int),
        final(builder).next_path_id == old(builder).next_path_id + objects@.len(),
        final(builder).serialized == old(builder).serialized,
        final(builder).objects == old(builder).objects,
{
    broadcast use vstd::std_specs::hash::group_hash_axioms;

    let mut remap: FxHashMap<PathId, PathId> = fx_new();
    assert(remap@ =~= path_remap(objects@, 0, old(builder).next_path_id as int));
    let mut i: usize = 0;
    while i < objects.len()
        invariant
            i <= objects.len(),
            obeys_key_model::<i64>(),
            old(builder).next_path_id + objects@.len() <= i64::MAX,
            builder.next_path_id == old(builder).next_path_id + i,
            builder.serialized == old(builder).serialized,
            builder.objects == old(builder).objects,
            remap@ == path_remap(objects@, i as int, old(builder).next_path_id as int),
        decreases objects.len() - i,
    {
        let id = builder.get_next_path_id();
        fx_insert(&mut remap, objects[i].path_id, id);
        i += 1;
    }
    remap
}

/// Appends copies of the externals and records the file id of each.
fn append_externals(into: &mut Vec<FileIdentifier>, externals: &Vec<FileIdentifier>) -> (remap:
    FxHashMap<FileId, FileId>)
    requires
        old(into)@.len() + externals@.len() <= i32::MAX,
    ensures
        remap@ == file_remap(externals@.len() as int, old(into)@.len() as int),
        final(into)@ == old(into)@ + externals@,
{
    broadcast use vstd::std_specs::hash::group_hash_axioms;

    let base: usize = into.len();
    let mut remap: FxHashMap<FileId, FileId> = fx_new();
    assert(remap@ =~= file_remap(0, base as int));
    let mut i: usize = 0;
    while i < externals.len()
        invariant
            i <= externals.len(),
            obeys_key_model::<i32>(),
            base == old(into)@.len(),
            base + externals@.len() <= i32::MAX,
            into@ == old(into)@ + externals@.take(i as int),
            remap@ == file_remap(i as int, base as int),
        decreases externals.len() - i,
    {
        let orig_file_id: usize = i + 1;
        let new_file_id: usize = into.len() + 1;
        fx_insert(&mut remap, orig_file_id as i32, new_file_id as i32);
        into.push(externals[i].duplicate());
        assert(into@ =~= old(into)@ + externals@.take(i + 1));
        i += 1;
    }
    assert(externals@.take(i as int) =~= externals@);
    remap
}

/// Sends the file index of every script type through the remap of file ids.
fn remap_script_files(script_types: &mut Vec<ScriptType>, files: &FxHashMap<FileId, FileId>)
    ensures
        final(script_types)@.len() == old(script_types)@.len(),
        final(script_types)@ == remapped_script_types(
            old(script_types)@,
            files@,
            old(script_types)@.len() as int,
        ),
{
    broadcast use vstd::std_specs::hash::group_hash_axioms;

    let mut i: usize = 0;
    while i < script_types.len()
        invariant
            i <= script_types.len(),
            obeys_key_model::<i32>(),
            script_types@.len() == old(script_types)@.len(),
            script_types@.take(i as int) == remapped_script_types(
                old(script_types)@,
                files@,
                i as int,
            ),
            forall|k: int| i <= k < script_types@.len() ==> script_types@[k] == old(script_types)@[k],
        decreases script_types.len() - i,
    {
        let st = script_types[i];
        let file_index = match fx_get(files, &st.local_serialized_file_index) {
            Some(new_index) => *new_index,
            None => st.local_serialized_file_index,
        };
        script_types.set(
            i,
            ScriptType {
                local_serialized_file_index: file_index,
                local_identifier_in_file: st.local_identifier_in_file,
            },
        );
        assert(script_types@.take(i + 1) =~= script_types@.take(i as int).push(script_types@[i as int]));
        i += 1;
    }
    assert(script_types@.take(i as int) =~= script_types@);
}

/// Moves the script type index of every type to where the scene's script
/// types went.
fn remap_script_indices(
    types: &mut Vec<SerializedType>,
    remap: &FxHashMap<i16, i16>,
    Ghost(scripts): Ghost<int>,
    Ghost(script_base): Ghost<int>,
)
    requires
        0 <= scripts,
        0 <= script_base,
        script_base + scripts <= i16::MAX,
        remap@ == script_remap(scripts, script_base),
    ensures
        final(types)@ == merged_types(old(types)@, scripts, script_base),
{
    broadcast use vstd::std_specs::hash::group_hash_axioms;

    let mut i: usize = 0;
    while i < types.len()
        invariant
            i <= types.len(),
            obeys_key_model::<i16>(),
            0 <= scripts,
            0 <= script_base,
            script_base + scripts <= i16::MAX,
            remap@ == script_remap(scripts, script_base),
            types@.len() == old(types)@.len(),
            forall|k: int|
                0 <= k < i ==> types@[k] == merged_type(old(types)@[k], scripts, script_base),
            forall|k: int| i <= k < types@.len() ==> types@[k] == old(types)@[k],
        decreases types.len() - i,
    {
        let index = types[i].script_type_index;
        proof {
            lemma_script_remap(scripts, script_base, index);
        }
        match fx_get(remap, &index) {
            Some(new_index) => {
                types[i].script_type_index = *new_index;
            },
            None => {},
        }
        i += 1;
    }
    assert(types@ =~= merged_types(old(types)@, scripts, script_base));
}

/// Takes the metadata of a scene's file into the builder.
///
/// The objects of `file` are those that survive. Each gets a fresh path
/// id; the externals, the script types and the types in use are appended to
/// the builder's. The result says where each path id, file id and type
/// index went. A file that declares reference types is refused.
pub fn add_scene_meta_to_builder(
    builder: &mut SerializedFileBuilder,
    file: &mut SerializedFile,
) -> (r: Result<RemapSerializedIndices, RepackError>)
    requires
        old(file).well_formed(),
        fits(old(builder), old(file)),
    ensures
        match r {
            Ok(remap) => !has_ref_types(old(file)) && merged_meta(
                *old(builder),
                *old(file),
                *final(builder),
                *final(file),
                remap,
            ),
            Err(e) => {
                &&& has_ref_types(old(file))
                &&& e == RepackError::UnsupportedFeature
                &&& *final(builder) == *old(builder)
                &&& *final(file) == *old(file)
            },
        },
{
    match file.ref_types {
        Some(n) => {
            if n > 0 {
                return Err(RepackError::UnsupportedFeature);
            }
        },
        None => {},
    }
    let remap_path_id = allocate_path_ids(builder, &file.objects);
    let remap_file_id = append_externals(&mut builder.serialized.externals, &file.externals);
    remap_script_files(&mut file.script_types, &remap_file_id);
    let ghost scripts = file.script_types@.len() as int;
    let ghost script_base = builder.serialized.script_types@.len() as int;
    let remap_script_types = remap_vecs_all(
        &mut file.script_types,
        &mut builder.serialized.script_types,
    );
    remap_script_indices(&mut file.types, &remap_script_types, Ghost(scripts), Ghost(script_base));
    assert(file.types@.len() == old(file).types@.len());
    let used_types = collect_used_types_of(&file.objects, file.types.len());
    let remap_types = remap_vecs(&used_types, &mut file.types, &mut builder.serialized.types);
    Ok(RemapSerializedIndices { path_id: remap_path_id, file_id: remap_file_id, types: remap_types })
}

/// The type tree by which an object is read: the one prepared for its
/// script, else the one that its type carries, else the one of its class.
pub open spec fn object_tree(
    path_id: PathId,
    class_id: i32,
    ty: SerializedType,
    cache: &TypeTreeCache,
    mb_types: Map<PathId, TypeTreeNode>,
) -> Option<TypeTreeNode> {
    if mb_types.contains_key(path_id) {
        Some(mb_types[path_id])
    } else if ty.type_tree is Some {
        ty.type_tree
    } else {
        cache.tree_of(class_id)
    }
}

/// The bytes of an object before its pointers are remapped: its override
/// if it has one, else its part of the scene's bytes.
pub open spec fn object_payload(
    obj: ObjectInfo,
    data: Seq<u8>,
    replacements: Map<PathId, Vec<u8>>,
) -> Option<Seq<u8>> {
    if replacements.contains_key(obj.path_id) {
        Some(replacements[obj.path_id]@)
    } else if 0 <= obj.offset && obj.offset + obj.size <= data.len() {
        Some(data.subrange(obj.offset as int, obj.offset + obj.size))
    } else {
        None
    }
}

/// The entry of an object in the merged file: its path id and type index
/// are the new ones.
pub open spec fn remapped_info(obj: ObjectInfo, paths: Map<PathId, PathId>, types: Map<i32, i32>)
    -> ObjectInfo {
    ObjectInfo {
        path_id: if paths.contains_key(obj.path_id) {
            paths[obj.path_id]
        } else {
            obj.path_id
        },
        type_id: types[obj.type_id],
        ..obj
    }
}

/// The three maps of a remap.
pub struct RemapModel {
    pub paths: Map<PathId, PathId>,
    pub files: Map<FileId, FileId>,
    pub types: Map<i32, i32>,
}

impl View for RemapSerializedIndices {
    type V = RemapModel;

    open spec fn view(&self) -> RemapModel {
        RemapModel { paths: self.path_id@, files: self.file_id@, types: self.types@ }
    }
}

/// One object as it enters the merged file, with its bytes. `types` are
/// the types of the merged file.
pub open spec fn remapped_object(
    obj: ObjectInfo,
    types: Seq<SerializedType>,
    data: Seq<u8>,
    cache: &TypeTreeCache,
    replacements: Map<PathId, Vec<u8>>,
    mb_types: Map<PathId, TypeTreeNode>,
    remap: RemapModel,
    big: bool,
) -> Result<(ObjectInfo, Seq<u8>), RepackError> {
    if !remap.types.contains_key(obj.type_id) {
        Err(RepackError::Internal)
    } else if !(0 <= remap.types[obj.type_id] < types.len()) {
        Err(RepackError::Internal)
    } else {
        let ty = types[remap.types[obj.type_id] as int];
        match object_tree(obj.path_id, obj.class_id, ty, cache, mb_types) {
            None => Err(RepackError::MissingType(obj.class_id)),
            Some(tree) => match object_payload(obj, data, replacements) {
                None => Err(RepackError::Parse),
                Some(bytes) => match replaced(tree@, bytes, remap.paths, remap.files, big) {
                    Err(e) => Err(RepackError::spec_from_walk(e)),
                    Ok(out) => Ok((remapped_info(obj, remap.paths, remap.types), out)),
                },
            },
        }
    }
}

/// The first `n` objects as they enter the merged file, or the failure of
/// the first that fails.
pub open spec fn remapped_objects(
    objects: Seq<ObjectInfo>,
    n: int,
    types: Seq<SerializedType>,
    data: Seq<u8>,
    cache: &TypeTreeCache,
    replacements: Map<PathId, Vec<u8>>,
    mb_types: Map<PathId, TypeTreeNode>,
    remap: RemapModel,
    big: bool,
) -> Result<Seq<(ObjectInfo, Seq<u8>)>, RepackError>
    decreases n,
{
    if n <= 0 {
        Ok(Seq::empty())
    } else {
        match remapped_objects(objects, n - 1, types, data, cache, replacements, mb_types, remap, big) {
            Err(e) => Err(e),
            Ok(before) => match remapped_object(
                objects[n - 1],
                types,
                data,
                cache,
                replacements,
                mb_types,
                remap,
                big,
            ) {
                Err(e) => Err(e),
                Ok(o) => Ok(before.push(o)),
            },
        }
    }
}

/// Objects with their bytes as plain sequences.
pub open spec fn with_bytes(objects: Seq<(ObjectInfo, Vec<u8>)>) -> Seq<(ObjectInfo, Seq<u8>)> {
    Seq::new(objects.len(), |i: int| (objects[i].0, objects[i].1@))
}

/// Copies the bytes of an object out of the scene's bytes.
fn copy_payload(data: &[u8], obj: &ObjectInfo) -> (r: Option<Vec<u8>>)
    ensures
        match r {
            Some(bytes) => 0 <= obj.offset && obj.offset + obj.size <= data@.len() && bytes@
                == data@.subrange(obj.offset as int, obj.offset + obj.size),
            None => !(0 <= obj.offset && obj.offset + obj.size <= data@.len()),
        },
{
    let len: usize = data.len();
    if obj.offset < 0 || obj.offset as u64 > len as u64 || obj.size as u64 > len as u64
        - obj.offset as u64 {
        None
    } else {
        let start: usize = obj.offset as usize;
        let end: usize = start + obj.size as usize;
        Some(slice_to_vec(slice_subrange(data, start, end)))
    }
}

/// Copies bytes.
fn copy_bytes(bytes: &Vec<u8>) -> (r: Vec<u8>)
    ensures
        r@ == bytes@,
{
    slice_to_vec(bytes.as_slice())
}

/// Prepares one object for the merged file.
fn remap_object(
    obj: ObjectInfo,
    file: &SerializedFile,
    data: &[u8],
    tpk: &TypeTreeCache,
    replacements: &FxHashMap<PathId, Vec<u8>>,
    mb_types: &FxHashMap<PathId, TypeTreeNode>,
    remap: &RemapSerializedIndices,
    endianness: Endianness,
) -> (r: Result<(ObjectInfo, Vec<u8>), RepackError>)
    ensures
        match r {
            Ok(o) => remapped_object(
                obj,
                file.types@,
                data@,
                tpk,
                replacements@,
                mb_types@,
                remap@,
                endianness.spec_is_big(),
            ) == Ok::<(ObjectInfo, Seq<u8>), RepackError>((o.0, o.1@)),
            Err(e) => remapped_object(
                obj,
                file.types@,
                data@,
                tpk,
                replacements@,
                mb_types@,
                remap@,
                endianness.spec_is_big(),
            ) == Err::<(ObjectInfo, Seq<u8>), RepackError>(e),
        },
{
    broadcast use vstd::std_specs::hash::group_hash_axioms;

    let type_id = match fx_get(&remap.types, &obj.type_id) {
        Some(t) => *t,
        None => {
            return Err(RepackError::Internal);
        },
    };
    if type_id < 0 || type_id as usize >= file.types.len() {
        return Err(RepackError::Internal);
    }
    let tt: &TypeTreeNode = match fx_get(mb_types, &obj.path_id) {
        Some(ty) => ty,
        None => match &file.types[type_id as usize].type_tree {
            Some(ty) => ty,
            None => match tpk.get_typetree_node(obj.class_id) {
                Some(ty) => ty,
                None => {
                    return Err(RepackError::MissingType(obj.class_id));
                },
            },
        },
    };
    let mut object_data: Vec<u8> = match fx_get(replacements, &obj.path_id) {
        Some(owned) => copy_bytes(owned),
        None => match copy_payload(data, &obj) {
            Some(bytes) => bytes,
            None => {
                return Err(RepackError::Parse);
            },
        },
    };
    let path_id = match fx_get(&remap.path_id, &obj.path_id) {
        Some(p) => *p,
        None => obj.path_id,
    };
    match replace_pptrs_inplace_endianed(
        &mut object_data,
        tt,
        &remap.path_id,
        &remap.file_id,
        endianness,
    ) {
        Err(e) => Err(RepackError::from_walk(e)),
        Ok(()) => {
            let info = ObjectInfo {
                path_id,
                offset: obj.offset,
                size: obj.size,
                type_id,
                class_id: obj.class_id,
                is_destroyed: obj.is_destroyed,
                script_type_index: obj.script_type_index,
                stripped: obj.stripped,
            };
            Ok((info, object_data))
        },
    }
}

/// Prepares the surviving objects of a scene for the merged file.
///
/// `file` holds the merged types, `data` the bytes of the scene and
/// `endianness` their byte order. Each object gets its new path id and
/// type index, and every pointer in its bytes is remapped. The bytes are
/// the object's override where `replacements` has one, and the walk goes by
/// the type tree in `mb_types` where the object has one there. The objects
/// come out in the order given; the first failure ends the work.
pub fn remap_objects(
    file: &SerializedFile,
    data: &[u8],
    tpk: &TypeTreeCache,
    objects: Vec<ObjectInfo>,
    replacements: &FxHashMap<PathId, Vec<u8>>,
    mb_types: &FxHashMap<PathId, TypeTreeNode>,
    remap: &RemapSerializedIndices,
    endianness: Endianness,
) -> (r: Result<Vec<(ObjectInfo, Vec<u8>)>, RepackError>)
    ensures
        match r {
            Ok(out) => remapped_objects(
                objects@,
                objects@.len() as int,
                file.types@,
                data@,
                tpk,
                replacements@,
                mb_types@,
                remap@,
                endianness.spec_is_big(),
            ) == Ok::<Seq<(ObjectInfo, Seq<u8>)>, RepackError>(with_bytes(out@)),
            Err(e) => remapped_objects(
                objects@,
                objects@.len() as int,
                file.types@,
                data@,
                tpk,
                replacements@,
                mb_types@,
                remap@,
                endianness.spec_is_big(),
            ) == Err::<Seq<(ObjectInfo, Seq<u8>)>, RepackError>(e),
        },
{
    let mut out: Vec<(ObjectInfo, Vec<u8>)> = Vec::new();
    let mut i: usize = 0;
    assert(with_bytes(out@) =~= Seq::empty());
    while i < objects.len()
        invariant
            i <= objects.len(),
            remapped_objects(
                objects@,
                i as int,
                file.types@,
                data@,
                tpk,
                replacements@,
                mb_types@,
                remap@,
                endianness.spec_is_big(),
            ) == Ok::<Seq<(ObjectInfo, Seq<u8>)>, RepackError>(with_bytes(out@)),
        decreases objects.len() - i,
    {
        let ghost before = with_bytes(out@);
        match remap_object(
            objects[i],
            file,
            data,
            tpk,
            replacements,
            mb_types,
            remap,
            endianness,
        ) {
            Err(e) => {
                proof {
                    lemma_remap_failure_stays(
                        objects@,
                        i + 1,
                        objects@.len() as int,
                        file.types@,
                        data@,
                        tpk,
                        replacements@,
                        mb_types@,
                        remap@,
                        endianness.spec_is_big(),
                    );
                }
                return Err(e);
            },
            Ok(o) => {
                out.push(o);
                assert(with_bytes(out@) =~= before.push((o.0, o.1@)));
            },
        }
        i += 1;
    }
    Ok(out)
}

/// Once an object has failed, the failure is the result for every longer
/// run of objects.
pub proof fn lemma_remap_failure_stays(
    objects: Seq<ObjectInfo>,
    n: int,
    m: int,
    types: Seq<SerializedType>,
    data: Seq<u8>,
    cache: &TypeTreeCache,
    replacements: Map<PathId, Vec<u8>>,
    mb_types: Map<PathId, TypeTreeNode>,
    remap: RemapModel,
    big: bool,
)
    requires
        n <= m,
        remapped_objects(objects, n, types, data, cache, replacements, mb_types, remap, big) is Err,
    ensures
        remapped_objects(objects, m, types, data, cache, replacements, mb_types, remap, big)
            == remapped_objects(objects, n, types, data, cache, replacements, mb_types, remap, big),
    decreases m - n,
{
    if n < m {
        lemma_remap_failure_stays(
            objects,
            n,
            m - 1,
            types,
            data,
            cache,
            replacements,
            mb_types,
            remap,
            big,
        );
    }
}

} // verus!
