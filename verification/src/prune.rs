//! Deciding which objects of a scene are kept, and how their ancestors and
//! roots are edited.

use crate::error::RepackError;
use crate::idset::{id_set_contains, id_set_insert};
use crate::pptr::{PathId, Pptr};
use crate::reachable::{
    lemma_reaches_start, lemma_reaches_step, points_to, reachable, reaches, scan_of,
};
use crate::scene_lookup::{path_segments, resolve, roots_upto, Found, Root, SceneLookup};
use crate::serialized::{ObjectInfo, SerializedFile, CLASS_RENDER_SETTINGS, CLASS_TRANSFORM};
use crate::typetree_cache::TypeTreeCache;
use crate::unity_types::{first_transform, SceneObjects, Transform};
use std::collections::{BTreeSet, VecDeque};
use vstd::prelude::*;

verus! {

/// A selected object: the path that was asked for and the transform that it
/// leads to.
#[derive(Debug)]
pub struct KeptRoot {
    pub path: String,
    pub transform_id: PathId,
    pub transform: usize,
    pub game_object: Pptr,
}

/// An ancestor of a selected object as it is written out again: its
/// children are those that are kept.
#[derive(Debug)]
pub struct AdjustedTransform {
    pub path_id: PathId,
    pub transform: usize,
    pub game_object: Pptr,
    pub children: Vec<Pptr>,
    pub father: Pptr,
}

/// What pruning a scene decides.
#[derive(Debug)]
pub struct Pruned {
    /// The path ids of the objects that are kept.
    pub keep_objects: BTreeSet<PathId>,
    /// The selected objects that were found, in the order asked for.
    pub roots: Vec<KeptRoot>,
    /// The paths that lead to nothing, in the order asked for.
    pub missing: Vec<String>,
    /// The ancestors that are kept with fewer children, in the order met.
    pub ancestors: Vec<AdjustedTransform>,
    /// The game objects of the roots that are to start out inactive.
    pub disabled: Vec<PathId>,
}

/// The transforms that a path leads to in a scene with the given roots.
pub open spec fn candidates_in(scene: &SceneObjects, roots: Seq<Root>, path: Seq<char>) -> Result<
    Seq<Found>,
    RepackError,
> {
    let segments = path_segments(path);
    resolve(scene, roots, segments, segments.len() as int)
}

/// What the first `n` paths select: the roots found, and the paths that
/// lead to nothing.
pub open spec fn selection(scene: &SceneObjects, roots: Seq<Root>, paths: Seq<String>, n: int)
    -> Result<(Seq<KeptRoot>, Seq<String>), RepackError>
    decreases n,
{
    if n <= 0 {
        Ok((Seq::empty(), Seq::empty()))
    } else {
        match selection(scene, roots, paths, n - 1) {
            Err(e) => Err(e),
            Ok(before) => match candidates_in(scene, roots, paths[n - 1]@) {
                Err(e) => Err(e),
                Ok(found) => if found.len() == 0 {
                    Ok((before.0, before.1.push(paths[n - 1])))
                } else {
                    Ok(
                        (
                            before.0.push(
                                KeptRoot {
                                    path: paths[n - 1],
                                    transform_id: found.last().path_id,
                                    transform: found.last().transform,
                                    game_object: scene.transforms@[found.last().transform
                                        as int].1.game_object,
                                },
                            ),
                            before.1,
                        ),
                    )
                },
            },
        }
    }
}

/// The path ids of the roots' transforms.
pub open spec fn root_ids(roots: Seq<KeptRoot>) -> Seq<PathId> {
    Seq::new(roots.len(), |i: int| roots[i].transform_id)
}

/// The set of what is reached from the starting points.
pub open spec fn reach_set(
    file: &SerializedFile,
    data: Seq<u8>,
    cache: &TypeTreeCache,
    from: Seq<PathId>,
) -> Set<PathId> {
    Set::new(|id: PathId| reaches(file, data, cache, from, id))
}

/// The way up from a father pointer: every transform on it that is not
/// kept yet is kept, until a transform is met that is kept already or has
/// no father. `fuel` bounds the number of steps.
pub open spec fn climb(scene: &SceneObjects, keep: Set<PathId>, next: Pptr, fuel: nat) -> Result<
    (Set<PathId>, Seq<Found>),
    RepackError,
>
    decreases fuel,
{
    if next.spec_is_null() {
        Ok((keep, Seq::empty()))
    } else {
        match scene.transform_at(next.path_id) {
            None => Err(RepackError::MissingObject(next.path_id)),
            Some(t) => if keep.contains(next.path_id) {
                Ok((keep, Seq::empty()))
            } else if fuel == 0 {
                Err(RepackError::Internal)
            } else {
                match climb(
                    scene,
                    keep.insert(next.path_id),
                    scene.transforms@[t].1.father,
                    (fuel - 1) as nat,
                ) {
                    Err(e) => Err(e),
                    Ok(rest) => Ok(
                        (
                            rest.0,
                            seq![Found { path_id: next.path_id, transform: t as usize }] + rest.1,
                        ),
                    ),
                }
            },
        }
    }
}

/// The ways up from the first `n` roots, one after the other.
pub open spec fn promoted(scene: &SceneObjects, keep: Set<PathId>, roots: Seq<KeptRoot>, n: int)
    -> Result<(Set<PathId>, Seq<Found>), RepackError>
    decreases n,
{
    if n <= 0 {
        Ok((keep, Seq::empty()))
    } else {
        match promoted(scene, keep, roots, n - 1) {
            Err(e) => Err(e),
            Ok(before) => match climb(
                scene,
                before.0,
                scene.transforms@[roots[n - 1].transform as int].1.father,
                scene.transforms@.len(),
            ) {
                Err(e) => Err(e),
                Ok(up) => Ok((up.0, before.1 + up.1)),
            },
        }
    }
}

/// Those of the first `n` pointers that lead to a kept object.
pub open spec fn kept_children(children: Seq<Pptr>, keep: Set<PathId>, n: int) -> Seq<Pptr>
    decreases n,
{
    if n <= 0 {
        Seq::empty()
    } else if keep.contains(children[n - 1].path_id) {
        kept_children(children, keep, n - 1).push(children[n - 1])
    } else {
        kept_children(children, keep, n - 1)
    }
}

/// The kept set after the first `n` ancestors were adjusted: the game
/// object of each is kept too.
pub open spec fn adjusted_keep(
    scene: &SceneObjects,
    keep: Set<PathId>,
    ancestors: Seq<Found>,
    n: int,
) -> Set<PathId>
    decreases n,
{
    if n <= 0 {
        keep
    } else {
        adjusted_keep(scene, keep, ancestors, n - 1).insert(
            scene.transforms@[ancestors[n - 1].transform as int].1.game_object.path_id,
        )
    }
}

/// Whether the adjusted transform is the `i`-th ancestor with its children
/// cut down to those kept when its turn came.
pub open spec fn adjusted_as(
    scene: &SceneObjects,
    keep: Set<PathId>,
    ancestors: Seq<Found>,
    i: int,
    adjusted: AdjustedTransform,
) -> bool {
    let t = scene.transforms@[ancestors[i].transform as int].1;
    &&& adjusted.path_id == ancestors[i].path_id
    &&& adjusted.transform == ancestors[i].transform
    &&& adjusted.game_object == t.game_object
    &&& adjusted.father == t.father
    &&& adjusted.children@ == kept_children(
        t.children@,
        adjusted_keep(scene, keep, ancestors, i),
        t.children@.len() as int,
    )
}

/// The kept set with the render settings of the file among the first `n`
/// objects.
pub open spec fn with_render_settings(keep: Set<PathId>, objects: Seq<ObjectInfo>, n: int) -> Set<
    PathId,
>
    decreases n,
{
    if n <= 0 {
        keep
    } else if objects[n - 1].class_id == CLASS_RENDER_SETTINGS {
        with_render_settings(keep, objects, n - 1).insert(objects[n - 1].path_id)
    } else {
        with_render_settings(keep, objects, n - 1)
    }
}

/// Whether the id is among those taken for an edit.
pub open spec fn taken(ancestors: Seq<Found>, disabled: Seq<PathId>, id: PathId) -> bool {
    (exists|i: int| 0 <= i < ancestors.len() && (#[trigger] ancestors[i]).path_id == id) || (
    disabled.contains(id))
}

/// The game objects of the first `n` roots, which are to start out
/// inactive. A game object that is absent, or one that is edited already,
/// is a failure.
pub open spec fn disabled_roots(
    scene: &SceneObjects,
    ancestors: Seq<Found>,
    roots: Seq<KeptRoot>,
    n: int,
) -> Result<Seq<PathId>, RepackError>
    decreases n,
{
    if n <= 0 {
        Ok(Seq::empty())
    } else {
        match disabled_roots(scene, ancestors, roots, n - 1) {
            Err(e) => Err(e),
            Ok(before) => {
                let go = roots[n - 1].game_object.path_id;
                if scene.game_object_at(go) is None {
                    Err(RepackError::MissingObject(go))
                } else if taken(ancestors, before, go) {
                    Err(RepackError::Internal)
                } else {
                    Ok(before.push(go))
                }
            },
        }
    }
}

/// What pruning decides once the selection is made and everything that
/// it reaches can be scanned.
pub open spec fn pruned_from(
    scene: &SceneObjects,
    file: &SerializedFile,
    data: Seq<u8>,
    cache: &TypeTreeCache,
    roots: Seq<KeptRoot>,
    disable_roots: bool,
) -> Result<(Set<PathId>, Seq<Found>, Seq<PathId>), RepackError> {
    let reached = reach_set(file, data, cache, root_ids(roots));
    match promoted(scene, reached, roots, roots.len() as int) {
        Err(e) => Err(e),
        Ok(up) => if cache.tree_of(CLASS_TRANSFORM) is None {
            Err(RepackError::MissingType(CLASS_TRANSFORM))
        } else {
            let keep = with_render_settings(
                adjusted_keep(scene, up.0, up.1, up.1.len() as int),
                file.objects@,
                file.objects@.len() as int,
            );
            if !disable_roots {
                Ok((keep, up.1, Seq::empty()))
            } else {
                match disabled_roots(scene, up.1, roots, roots.len() as int) {
                    Err(e) => Err(e),
                    Ok(disabled) => Ok((keep, up.1, disabled)),
                }
            }
        },
    }
}

/// Whether everything that is reached from the starting points can be
/// scanned.
pub open spec fn all_scannable(
    file: &SerializedFile,
    data: Seq<u8>,
    cache: &TypeTreeCache,
    from: Seq<PathId>,
) -> bool {
    forall|id: PathId| #[trigger]
        reaches(file, data, cache, from, id) ==> scan_of(file, data, cache, id) is Ok
}

/// Whether the adjusted transforms are the ancestors, one for one.
pub open spec fn all_adjusted(
    scene: &SceneObjects,
    keep: Set<PathId>,
    ancestors: Seq<Found>,
    adjusted: Seq<AdjustedTransform>,
) -> bool {
    &&& adjusted.len() == ancestors.len()
    &&& forall|i: int|
        0 <= i < adjusted.len() ==> adjusted_as(scene, keep, ancestors, i, #[trigger] adjusted[i])
}

/// What `prune_scene` promises.
///
/// The roots of the scene are collected and the paths looked up; a failure
/// there is the result. Where something that the selection reaches cannot
/// be scanned, the result is the failure of such an object. Else the
/// result is what the selection decides.
pub open spec fn pruned_scene(
    scene: &SceneObjects,
    file: &SerializedFile,
    data: Seq<u8>,
    cache: &TypeTreeCache,
    paths: Seq<String>,
    disable_roots: bool,
    r: Result<Pruned, RepackError>,
) -> bool {
    match roots_upto(scene, scene.transforms@.len() as int) {
        Err(e) => r == Err::<Pruned, RepackError>(e),
        Ok(roots) => match selection(scene, roots, paths, paths.len() as int) {
            Err(e) => r == Err::<Pruned, RepackError>(e),
            Ok(chosen) => if !all_scannable(file, data, cache, root_ids(chosen.0)) {
                r is Err && exists|id: PathId|
                    reaches(file, data, cache, root_ids(chosen.0), id) && #[trigger] scan_of(
                        file,
                        data,
                        cache,
                        id,
                    ) == Err::<Seq<Pptr>, RepackError>(r->Err_0)
            } else {
                match pruned_from(scene, file, data, cache, chosen.0, disable_roots) {
                    Err(e) => r == Err::<Pruned, RepackError>(e),
                    Ok(decided) => {
                        &&& r is Ok
                        &&& r->Ok_0.roots@ == chosen.0
                        &&& r->Ok_0.missing@ == chosen.1
                        &&& r->Ok_0.keep_objects@ == decided.0
                        &&& all_adjusted(
                            scene,
                            promoted(
                                scene,
                                reach_set(file, data, cache, root_ids(chosen.0)),
                                chosen.0,
                                chosen.0.len() as int,
                            )->Ok_0.0,
                            decided.1,
                            r->Ok_0.ancestors@,
                        )
                        &&& r->Ok_0.disabled@ == decided.2
                    },
                }
            },
        },
    }
}

/// Whether every root stands inside the scene's list of transforms.
pub open spec fn kept_roots_in_range(scene: &SceneObjects, roots: Seq<KeptRoot>) -> bool {
    forall|i: int| 0 <= i < roots.len() ==> (#[trigger] roots[i]).transform < scene.transforms@.len()
}

/// Whether every ancestor stands inside the scene's list of transforms.
pub open spec fn ancestors_in_range(scene: &SceneObjects, ancestors: Seq<Found>) -> bool {
    forall|i: int|
        0 <= i < ancestors.len() ==> (#[trigger] ancestors[i]).transform < scene.transforms@.len()
}

/// Looks up every path and sorts out those that lead to nothing.
pub fn select_paths(lookup: &SceneLookup, paths: &Vec<String>) -> (r: Result<
    (Vec<KeptRoot>, Vec<String>),
    RepackError,
>)
    requires
        lookup.well_formed(),
    ensures
        match r {
            Ok(chosen) => selection(lookup.scene, lookup.roots@, paths@, paths@.len() as int)
                == Ok::<(Seq<KeptRoot>, Seq<String>), RepackError>((chosen.0@, chosen.1@))
                && kept_roots_in_range(lookup.scene, chosen.0@),
            Err(e) => selection(lookup.scene, lookup.roots@, paths@, paths@.len() as int) == Err::<
                (Seq<KeptRoot>, Seq<String>),
                RepackError,
            >(e),
        },
{
    let mut roots: Vec<KeptRoot> = Vec::new();
    let mut missing: Vec<String> = Vec::new();
    let mut n: usize = 0;
    while n < paths.len()
        invariant
            n <= paths.len(),
            lookup.well_formed(),
            kept_roots_in_range(lookup.scene, roots@),
            selection(lookup.scene, lookup.roots@, paths@, n as int) == Ok::<
                (Seq<KeptRoot>, Seq<String>),
                RepackError,
            >((roots@, missing@)),
        decreases paths.len() - n,
    {
        match lookup.lookup_path(paths[n].as_str()) {
            Err(e) => {
                proof {
                    lemma_selection_failure_stays(
                        lookup.scene,
                        lookup.roots@,
                        paths@,
                        n + 1,
                        paths@.len() as int,
                    );
                }
                return Err(e);
            },
            Ok(None) => {
                missing.push(paths[n].clone());
            },
            Ok(Some(found)) => {
                roots.push(
                    KeptRoot {
                        path: paths[n].clone(),
                        transform_id: found.path_id,
                        transform: found.transform,
                        game_object: lookup.scene.transforms[found.transform].1.game_object,
                    },
                );
            },
        }
        n += 1;
    }
    Ok((roots, missing))
}

pub proof fn lemma_selection_failure_stays(
    scene: &SceneObjects,
    roots: Seq<Root>,
    paths: Seq<String>,
    n: int,
    m: int,
)
    requires
        n <= m,
        selection(scene, roots, paths, n) is Err,
    ensures
        selection(scene, roots, paths, m) == selection(scene, roots, paths, n),
    decreases m - n,
{
    if n < m {
        lemma_selection_failure_stays(scene, roots, paths, n, m - 1);
    }
}

/// The result of a climb that has gone part of its way: what is still to
/// come, behind the ancestors met so far.
pub open spec fn climb_onward(
    met: Seq<Found>,
    onward: Result<(Set<PathId>, Seq<Found>), RepackError>,
) -> Result<(Set<PathId>, Seq<Found>), RepackError> {
    match onward {
        Err(e) => Err(e),
        Ok(rest) => Ok((rest.0, met + rest.1)),
    }
}

/// Goes up from a father pointer and keeps every transform on the way.
fn climb_up(scene: &SceneObjects, keep: &mut BTreeSet<PathId>, first: Pptr, out: &mut Vec<Found>)
    -> (r: Result<(), RepackError>)
    requires
        ancestors_in_range(scene, old(out)@),
    ensures
        match r {
            Ok(()) => {
                &&& climb(scene, old(keep)@, first, scene.transforms@.len()) is Ok
                &&& final(keep)@ == climb(scene, old(keep)@, first, scene.transforms@.len())->Ok_0.0
                &&& final(out)@ == old(out)@ + climb(
                    scene,
                    old(keep)@,
                    first,
                    scene.transforms@.len(),
                )->Ok_0.1
                &&& ancestors_in_range(scene, final(out)@)
            },
            Err(e) => climb(scene, old(keep)@, first, scene.transforms@.len()) == Err::<
                (Set<PathId>, Seq<Found>),
                RepackError,
            >(e),
        },
{
    let mut next: Pptr = first;
    let mut fuel: usize = scene.transforms.len();
    let ghost mut met: Seq<Found> = Seq::empty();
    assert(old(out)@ + met =~= old(out)@);
    assert(climb_onward(met, climb(scene, keep@, next, fuel as nat)) == climb(
        scene,
        old(keep)@,
        first,
        scene.transforms@.len(),
    )) by {
        let c = climb(scene, keep@, next, fuel as nat);
        if c is Ok {
            assert(met + c->Ok_0.1 =~= c->Ok_0.1);
        }
    }
    loop
        invariant
            ancestors_in_range(scene, out@),
            out@ == old(out)@ + met,
            climb_onward(met, climb(scene, keep@, next, fuel as nat)) == climb(
                scene,
                old(keep)@,
                first,
                scene.transforms@.len(),
            ),
        ensures
            climb(scene, keep@, next, fuel as nat) == Ok::<(Set<PathId>, Seq<Found>), RepackError>(
                (keep@, Seq::empty()),
            ),
            ancestors_in_range(scene, out@),
            out@ == old(out)@ + met,
            climb_onward(met, climb(scene, keep@, next, fuel as nat)) == climb(
                scene,
                old(keep)@,
                first,
                scene.transforms@.len(),
            ),
        decreases fuel,
    {
        if next.is_null() {
            break ;
        }
        let t = match scene.find_transform(next.path_id) {
            None => {
                return Err(RepackError::MissingObject(next.path_id));
            },
            Some(t) => t,
        };
        if id_set_contains(keep, next.path_id) {
            break ;
        }
        if fuel == 0 {
            return Err(RepackError::Internal);
        }
        let ghost keep_before = keep@;
        let ghost met_before = met;
        id_set_insert(keep, next.path_id);
        let step = Found { path_id: next.path_id, transform: t };
        out.push(step);
        proof {
            met = met_before.push(step);
            assert(out@ =~= old(out)@ + met);
            let after = climb(
                scene,
                keep@,
                scene.transforms@[t as int].1.father,
                (fuel - 1) as nat,
            );
            if after is Ok {
                assert(met_before + (seq![step] + after->Ok_0.1) =~= met + after->Ok_0.1);
            }
        }
        next = scene.transforms[t].1.father;
        fuel = fuel - 1;
    }
    proof {
        assert(met + Seq::<Found>::empty() =~= met);
    }
    Ok(())
}

/// Keeps the ancestors of every root.
pub fn promote_ancestors(scene: &SceneObjects, keep: &mut BTreeSet<PathId>, roots: &Vec<KeptRoot>)
    -> (r: Result<Vec<Found>, RepackError>)
    requires
        kept_roots_in_range(scene, roots@),
    ensures
        match r {
            Ok(ancestors) => promoted(scene, old(keep)@, roots@, roots@.len() as int) == Ok::<
                (Set<PathId>, Seq<Found>),
                RepackError,
            >((final(keep)@, ancestors@)) && ancestors_in_range(scene, ancestors@),
            Err(e) => promoted(scene, old(keep)@, roots@, roots@.len() as int) == Err::<
                (Set<PathId>, Seq<Found>),
                RepackError,
            >(e),
        },
{
    let mut ancestors: Vec<Found> = Vec::new();
    let mut n: usize = 0;
    while n < roots.len()
        invariant
            n <= roots.len(),
            kept_roots_in_range(scene, roots@),
            ancestors_in_range(scene, ancestors@),
            promoted(scene, old(keep)@, roots@, n as int) == Ok::<
                (Set<PathId>, Seq<Found>),
                RepackError,
            >((keep@, ancestors@)),
        decreases roots.len() - n,
    {
        let father = scene.transforms[roots[n].transform].1.father;
        match climb_up(scene, keep, father, &mut ancestors) {
            Err(e) => {
                proof {
                    lemma_promoted_failure_stays(
                        scene,
                        old(keep)@,
                        roots@,
                        n + 1,
                        roots@.len() as int,
                    );
                }
                return Err(e);
            },
            Ok(()) => {},
        }
        n += 1;
    }
    Ok(ancestors)
}

pub proof fn lemma_promoted_failure_stays(
    scene: &SceneObjects,
    keep: Set<PathId>,
    roots: Seq<KeptRoot>,
    n: int,
    m: int,
)
    requires
        n <= m,
        promoted(scene, keep, roots, n) is Err,
    ensures
        promoted(scene, keep, roots, m) == promoted(scene, keep, roots, n),
    decreases m - n,
{
    if n < m {
        lemma_promoted_failure_stays(scene, keep, roots, n, m - 1);
    }
}

/// Cuts the children of an ancestor down to those that are kept, and keeps
/// its game object.
pub fn adjust_ancestor(scene: &SceneObjects, keep: &mut BTreeSet<PathId>, ancestor: Found) -> (r:
    AdjustedTransform)
    requires
        ancestor.transform < scene.transforms@.len(),
    ensures
        r.path_id == ancestor.path_id,
        r.transform == ancestor.transform,
        r.game_object == scene.transforms@[ancestor.transform as int].1.game_object,
        r.father == scene.transforms@[ancestor.transform as int].1.father,
        r.children@ == kept_children(
            scene.transforms@[ancestor.transform as int].1.children@,
            old(keep)@,
            scene.transforms@[ancestor.transform as int].1.children@.len() as int,
        ),
        final(keep)@ == old(keep)@.insert(
            scene.transforms@[ancestor.transform as int].1.game_object.path_id,
        ),
{
    let transform = &scene.transforms[ancestor.transform].1;
    let mut children: Vec<Pptr> = Vec::new();
    let mut n: usize = 0;
    while n < transform.children.len()
        invariant
            n <= transform.children.len(),
            keep@ == old(keep)@,
            children@ == kept_children(transform.children@, keep@, n as int),
        decreases transform.children.len() - n,
    {
        let child = transform.children[n];
        if id_set_contains(keep, child.path_id) {
            children.push(child);
        }
        n += 1;
    }
    id_set_insert(keep, transform.game_object.path_id);
    AdjustedTransform {
        path_id: ancestor.path_id,
        transform: ancestor.transform,
        game_object: transform.game_object,
        children,
        father: transform.father,
    }
}

/// Adjusts every ancestor, in the order in which they were met.
fn adjust_ancestors(scene: &SceneObjects, keep: &mut BTreeSet<PathId>, ancestors: &Vec<Found>) -> (r:
    Vec<AdjustedTransform>)
    requires
        ancestors_in_range(scene, ancestors@),
    ensures
        all_adjusted(scene, old(keep)@, ancestors@, r@),
        final(keep)@ == adjusted_keep(scene, old(keep)@, ancestors@, ancestors@.len() as int),
{
    let mut adjusted: Vec<AdjustedTransform> = Vec::new();
    let mut n: usize = 0;
    while n < ancestors.len()
        invariant
            n <= ancestors.len(),
            ancestors_in_range(scene, ancestors@),
            adjusted@.len() == n,
            forall|i: int|
                0 <= i < n ==> adjusted_as(scene, old(keep)@, ancestors@, i, #[trigger] adjusted@[i]),
            keep@ == adjusted_keep(scene, old(keep)@, ancestors@, n as int),
        decreases ancestors.len() - n,
    {
        let one = adjust_ancestor(scene, keep, ancestors[n]);
        adjusted.push(one);
        n += 1;
    }
    adjusted
}

/// Keeps the render settings of the file.
fn keep_render_settings(file: &SerializedFile, keep: &mut BTreeSet<PathId>)
    ensures
        final(keep)@ == with_render_settings(
            old(keep)@,
            file.objects@,
            file.objects@.len() as int,
        ),
{
    let mut n: usize = 0;
    while n < file.objects.len()
        invariant
            n <= file.objects.len(),
            keep@ == with_render_settings(old(keep)@, file.objects@, n as int),
        decreases file.objects.len() - n,
    {
        if file.objects[n].class_id == CLASS_RENDER_SETTINGS {
            id_set_insert(keep, file.objects[n].path_id);
        }
        n += 1;
    }
}

/// Whether the id is among those taken for an edit.
fn is_taken(ancestors: &Vec<Found>, disabled: &Vec<PathId>, id: PathId) -> (r: bool)
    ensures
        r == taken(ancestors@, disabled@, id),
{
    let mut i: usize = 0;
    while i < ancestors.len()
        invariant
            i <= ancestors.len(),
            forall|k: int| 0 <= k < i ==> (#[trigger] ancestors@[k]).path_id != id,
        decreases ancestors.len() - i,
    {
        if ancestors[i].path_id == id {
            return true;
        }
        i += 1;
    }
    let mut j: usize = 0;
    while j < disabled.len()
        invariant
            j <= disabled.len(),
            forall|k: int| 0 <= k < ancestors@.len() ==> (#[trigger] ancestors@[k]).path_id != id,
            forall|k: int| 0 <= k < j ==> disabled@[k] != id,
        decreases disabled.len() - j,
    {
        if disabled[j] == id {
            return true;
        }
        j += 1;
    }
    false
}

/// Lists the game objects of the roots, which are to start out inactive.
pub fn adjust_kept(scene: &SceneObjects, ancestors: &Vec<Found>, roots: &Vec<KeptRoot>) -> (r:
    Result<Vec<PathId>, RepackError>)
    ensures
        match r {
            Ok(disabled) => disabled_roots(scene, ancestors@, roots@, roots@.len() as int) == Ok::<
                Seq<PathId>,
                RepackError,
            >(disabled@),
            Err(e) => disabled_roots(scene, ancestors@, roots@, roots@.len() as int) == Err::<
                Seq<PathId>,
                RepackError,
            >(e),
        },
{
    let mut disabled: Vec<PathId> = Vec::new();
    let mut n: usize = 0;
    while n < roots.len()
        invariant
            n <= roots.len(),
            disabled_roots(scene, ancestors@, roots@, n as int) == Ok::<Seq<PathId>, RepackError>(
                disabled@,
            ),
        decreases roots.len() - n,
    {
        let go = roots[n].game_object.path_id;
        let failure: Option<RepackError> = if scene.find_game_object(go).is_none() {
            Some(RepackError::MissingObject(go))
        } else if is_taken(ancestors, &disabled, go) {
            Some(RepackError::Internal)
        } else {
            None
        };
        match failure {
            Some(e) => {
                proof {
                    lemma_disabled_failure_stays(scene, ancestors@, roots@, n + 1, roots@.len() as int);
                }
                return Err(e);
            },
            None => {
                disabled.push(go);
            },
        }
        n += 1;
    }
    Ok(disabled)
}

pub proof fn lemma_disabled_failure_stays(
    scene: &SceneObjects,
    ancestors: Seq<Found>,
    roots: Seq<KeptRoot>,
    n: int,
    m: int,
)
    requires
        n <= m,
        disabled_roots(scene, ancestors, roots, n) is Err,
    ensures
        disabled_roots(scene, ancestors, roots, m) == disabled_roots(scene, ancestors, roots, n),
    decreases m - n,
{
    if n < m {
        lemma_disabled_failure_stays(scene, ancestors, roots, n, m - 1);
    }
}

/// The path ids of the roots' transforms, as a queue.
fn queue_roots(roots: &Vec<KeptRoot>) -> (queue: VecDeque<PathId>)
    ensures
        queue@ == root_ids(roots@),
{
    let mut queue: VecDeque<PathId> = VecDeque::new();
    let mut n: usize = 0;
    while n < roots.len()
        invariant
            n <= roots.len(),
            queue@ == root_ids(roots@.take(n as int)),
        decreases roots.len() - n,
    {
        queue.push_back(roots[n].transform_id);
        assert(queue@ =~= root_ids(roots@.take(n + 1)));
        n += 1;
    }
    assert(roots@.take(n as int) =~= roots@);
    queue
}

/// Decides which objects of a scene are kept.
///
/// The paths are looked up in the scene; each that is found selects its
/// transform. Kept is what the selection reaches along local pointers;
/// every ancestor of a selected transform up to the first that is kept
/// already, with its game object; and the render settings of the file. An
/// ancestor keeps only those of its children that are kept. Where
/// `disable_roots` is set, the game objects of the selected transforms are
/// named to start out inactive.
pub fn prune_scene(
    scene: &SceneObjects,
    file: &SerializedFile,
    data: &[u8],
    tpk: &TypeTreeCache,
    retain_paths: &Vec<String>,
    disable_roots: bool,
) -> (r: Result<Pruned, RepackError>)
    ensures
        pruned_scene(scene, file, data@, tpk, retain_paths@, disable_roots, r),
{
    let lookup = match SceneLookup::new(scene) {
        Ok(lookup) => lookup,
        Err(e) => {
            return Err(e);
        },
    };
    let (roots, missing) = match select_paths(&lookup, retain_paths) {
        Ok(chosen) => chosen,
        Err(e) => {
            return Err(e);
        },
    };
    let retain_ids = queue_roots(&roots);
    let mut keep = match reachable(file, data, tpk, retain_ids) {
        Ok(keep) => keep,
        Err(e) => {
            return Err(e);
        },
    };
    proof {
        assert(keep@ =~= reach_set(file, data@, tpk, root_ids(roots@)));
        assert forall|id: PathId| #[trigger]
            reaches(file, data@, tpk, root_ids(roots@), id) implies scan_of(file, data@, tpk, id)
            is Ok by {
            assert(keep@.contains(id));
        }
    }
    let ancestors = match promote_ancestors(scene, &mut keep, &roots) {
        Ok(ancestors) => ancestors,
        Err(e) => {
            return Err(e);
        },
    };
    if tpk.get_typetree_node(CLASS_TRANSFORM).is_none() {
        return Err(RepackError::MissingType(CLASS_TRANSFORM));
    }
    let adjusted = adjust_ancestors(scene, &mut keep, &ancestors);
    keep_render_settings(file, &mut keep);
    let disabled = if disable_roots {
        match adjust_kept(scene, &ancestors, &roots) {
            Ok(disabled) => disabled,
            Err(e) => {
                return Err(e);
            },
        }
    } else {
        Vec::new()
    };
    Ok(Pruned { keep_objects: keep, roots, missing, ancestors: adjusted, disabled })
}

/// A climb only adds to what is kept.
pub proof fn lemma_climb_grows(scene: &SceneObjects, keep: Set<PathId>, next: Pptr, fuel: nat)
    requires
        climb(scene, keep, next, fuel) is Ok,
    ensures
        keep.subset_of(climb(scene, keep, next, fuel)->Ok_0.0),
    decreases fuel,
{
    if !next.spec_is_null() && scene.transform_at(next.path_id) is Some && !keep.contains(
        next.path_id,
    ) && fuel > 0 {
        let t = scene.transform_at(next.path_id)->0;
        lemma_climb_grows(
            scene,
            keep.insert(next.path_id),
            scene.transforms@[t].1.father,
            (fuel - 1) as nat,
        );
    }
}

/// Keeping ancestors only adds to what is kept.
pub proof fn lemma_promoted_grows(
    scene: &SceneObjects,
    keep: Set<PathId>,
    roots: Seq<KeptRoot>,
    n: int,
)
    requires
        promoted(scene, keep, roots, n) is Ok,
    ensures
        keep.subset_of(promoted(scene, keep, roots, n)->Ok_0.0),
    decreases n,
{
    if n > 0 {
        lemma_promoted_grows(scene, keep, roots, n - 1);
        let before = promoted(scene, keep, roots, n - 1)->Ok_0;
        lemma_climb_grows(
            scene,
            before.0,
            scene.transforms@[roots[n - 1].transform as int].1.father,
            scene.transforms@.len(),
        );
    }
}

/// Adjusting ancestors only adds to what is kept.
pub proof fn lemma_adjusted_grows(
    scene: &SceneObjects,
    keep: Set<PathId>,
    ancestors: Seq<Found>,
    n: int,
)
    ensures
        keep.subset_of(adjusted_keep(scene, keep, ancestors, n)),
    decreases n,
{
    if n > 0 {
        lemma_adjusted_grows(scene, keep, ancestors, n - 1);
    }
}

/// Keeping the render settings only adds to what is kept.
pub proof fn lemma_render_settings_grow(keep: Set<PathId>, objects: Seq<ObjectInfo>, n: int)
    ensures
        keep.subset_of(with_render_settings(keep, objects, n)),
    decreases n,
{
    if n > 0 {
        lemma_render_settings_grow(keep, objects, n - 1);
    }
}

/// Where pruning succeeds, what is kept holds the transform of every
/// selected object that was found, everything that these reach along local
/// pointers, and every local target of what they reach.
pub proof fn law_closure_soundness(
    scene: &SceneObjects,
    file: &SerializedFile,
    data: Seq<u8>,
    cache: &TypeTreeCache,
    paths: Seq<String>,
    disable_roots: bool,
    r: Result<Pruned, RepackError>,
)
    requires
        pruned_scene(scene, file, data, cache, paths, disable_roots, r),
        r is Ok,
    ensures
        forall|i: int|
            0 <= i < r->Ok_0.roots@.len() ==> r->Ok_0.keep_objects@.contains(
                (#[trigger] r->Ok_0.roots@[i]).transform_id,
            ),
        forall|a: PathId|
            reaches(file, data, cache, root_ids(r->Ok_0.roots@), a)
                ==> r->Ok_0.keep_objects@.contains(a),
        forall|a: PathId, b: PathId|
            reaches(file, data, cache, root_ids(r->Ok_0.roots@), a) && #[trigger] points_to(
                file,
                data,
                cache,
                a,
                b,
            ) ==> r->Ok_0.keep_objects@.contains(b),
{
    let roots = roots_upto(scene, scene.transforms@.len() as int)->Ok_0;
    let chosen = selection(scene, roots, paths, paths.len() as int)->Ok_0;
    let from = root_ids(chosen.0);
    let reached = reach_set(file, data, cache, from);
    let up = promoted(scene, reached, chosen.0, chosen.0.len() as int)->Ok_0;
    let keep = r->Ok_0.keep_objects@;
    lemma_promoted_grows(scene, reached, chosen.0, chosen.0.len() as int);
    lemma_adjusted_grows(scene, up.0, up.1, up.1.len() as int);
    lemma_render_settings_grow(
        adjusted_keep(scene, up.0, up.1, up.1.len() as int),
        file.objects@,
        file.objects@.len() as int,
    );
    assert(reached.subset_of(keep));
    assert forall|i: int| 0 <= i < chosen.0.len() implies keep.contains(
        (#[trigger] chosen.0[i]).transform_id,
    ) by {
        lemma_reaches_start(file, data, cache, from, i);
        assert(reached.contains(from[i]));
    }
    assert forall|a: PathId| reaches(file, data, cache, from, a) implies keep.contains(a) by {
        assert(reached.contains(a));
    }
    assert forall|a: PathId, b: PathId|
        reaches(file, data, cache, from, a) && #[trigger] points_to(
            file,
            data,
            cache,
            a,
            b,
        ) implies keep.contains(b) by {
        lemma_reaches_step(file, data, cache, from, a, b);
        assert(reached.contains(b));
    }
}

/// The path ids of the first `n` transforms.
pub open spec fn transform_ids(transforms: Seq<(PathId, Transform)>, n: int) -> Set<PathId>
    decreases n,
{
    if n <= 0 {
        Set::empty()
    } else {
        transform_ids(transforms, n - 1).insert(transforms[n - 1].0)
    }
}

/// The path ids of the first `n` transforms are at most `n`, and a
/// transform that is found is among them.
pub proof fn lemma_transform_ids(transforms: Seq<(PathId, Transform)>, n: int)
    requires
        0 <= n <= transforms.len(),
    ensures
        transform_ids(transforms, n).finite(),
        transform_ids(transforms, n).len() <= n,
        forall|i: int| 0 <= i < n ==> transform_ids(transforms, n).contains((#[trigger] transforms[i]).0),
    decreases n,
{
    if n > 0 {
        lemma_transform_ids(transforms, n - 1);
        let before = transform_ids(transforms, n - 1);
        assert forall|i: int| 0 <= i < n implies transform_ids(transforms, n).contains(
            (#[trigger] transforms[i]).0,
        ) by {
            if i < n - 1 {
                assert(before.contains(transforms[i].0));
            }
        }
    }
}

/// A transform that is found bears the path id that was looked for.
pub proof fn lemma_first_transform(transforms: Seq<(PathId, Transform)>, path_id: PathId, from: int)
    requires
        0 <= from,
        first_transform(transforms, path_id, from) is Some,
    ensures
        from <= first_transform(transforms, path_id, from)->0 < transforms.len(),
        transforms[first_transform(transforms, path_id, from)->0].0 == path_id,
    decreases transforms.len() - from,
{
    if from < transforms.len() && transforms[from].0 != path_id {
        lemma_first_transform(transforms, path_id, from + 1);
    }
}

/// A way up that may take as many steps as there are transforms that are
/// not kept yet never runs out of steps.
pub proof fn lemma_climb_has_fuel(scene: &SceneObjects, keep: Set<PathId>, next: Pptr, fuel: nat)
    requires
        transform_ids(scene.transforms@, scene.transforms@.len() as int).difference(keep).len()
            <= fuel,
    ensures
        climb(scene, keep, next, fuel) != Err::<(Set<PathId>, Seq<Found>), RepackError>(
            RepackError::Internal,
        ),
    decreases fuel,
{
    let all = transform_ids(scene.transforms@, scene.transforms@.len() as int);
    lemma_transform_ids(scene.transforms@, scene.transforms@.len() as int);
    if !next.spec_is_null() && scene.transform_at(next.path_id) is Some && !keep.contains(
        next.path_id,
    ) {
        let t = scene.transform_at(next.path_id)->0;
        lemma_first_transform(scene.transforms@, next.path_id, 0);
        assert(all.contains(scene.transforms@[t].0));
        all.lemma_set_insert_diff_decreases(keep, next.path_id);
        if fuel > 0 {
            lemma_climb_has_fuel(
                scene,
                keep.insert(next.path_id),
                scene.transforms@[t].1.father,
                (fuel - 1) as nat,
            );
        }
    }
}

/// The ways up from the roots never run out of steps: promoting ancestors
/// fails only where a transform is absent.
pub proof fn law_promotion_has_fuel(
    scene: &SceneObjects,
    keep: Set<PathId>,
    roots: Seq<KeptRoot>,
    n: int,
)
    ensures
        promoted(scene, keep, roots, n) != Err::<(Set<PathId>, Seq<Found>), RepackError>(
            RepackError::Internal,
        ),
    decreases n,
{
    if n > 0 {
        law_promotion_has_fuel(scene, keep, roots, n - 1);
        match promoted(scene, keep, roots, n - 1) {
            Err(_) => {},
            Ok(before) => {
                let all = transform_ids(scene.transforms@, scene.transforms@.len() as int);
                lemma_transform_ids(scene.transforms@, scene.transforms@.len() as int);
                vstd::set_lib::lemma_len_subset(all.difference(before.0), all);
                lemma_climb_has_fuel(
                    scene,
                    before.0,
                    scene.transforms@[roots[n - 1].transform as int].1.father,
                    scene.transforms@.len(),
                );
            },
        }
    }
}

} // verus!
