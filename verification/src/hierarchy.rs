//! Going up the hierarchy of a scene, from an object to its root.

use crate::error::RepackError;
use crate::pptr::{PathId, Pptr};
use crate::scene_lookup::Found;
use crate::unity_types::SceneObjects;
use vstd::prelude::*;
use vstd::string::StringExecFns;

verus! {

/// The transforms from a father pointer upwards, nearest first, until a
/// transform has no father. A transform that is absent is a failure, and
/// so is a way up that is longer than `fuel` steps.
pub open spec fn ancestors_from(scene: &SceneObjects, next: Pptr, fuel: nat) -> Result<
    Seq<Found>,
    RepackError,
>
    decreases fuel,
{
    if next.spec_is_null() {
        Ok(Seq::empty())
    } else {
        match scene.transform_at(next.path_id) {
            None => Err(RepackError::MissingObject(next.path_id)),
            Some(t) => if fuel == 0 {
                Err(RepackError::Internal)
            } else {
                match ancestors_from(scene, scene.transforms@[t].1.father, (fuel - 1) as nat) {
                    Err(e) => Err(e),
                    Ok(rest) => Ok(
                        seq![Found { path_id: next.path_id, transform: t as usize }] + rest,
                    ),
                }
            },
        }
    }
}

/// What is still to come of a way up, behind the transforms met so far.
pub open spec fn onward(met: Seq<Found>, rest: Result<Seq<Found>, RepackError>) -> Result<
    Seq<Found>,
    RepackError,
> {
    match rest {
        Err(e) => Err(e),
        Ok(more) => Ok(met + more),
    }
}

/// Whether every transform found stands inside the scene's list.
pub open spec fn all_in_range(scene: &SceneObjects, found: Seq<Found>) -> bool {
    forall|i: int| 0 <= i < found.len() ==> (#[trigger] found[i]).transform < scene.transforms@.len()
}

/// Lists the ancestors of a transform, nearest first.
///
/// The way up ends at a transform without a father. A way that is longer
/// than the scene has transforms goes in a circle and is a failure.
pub fn ancestors(scene: &SceneObjects, transform: usize) -> (r: Result<Vec<Found>, RepackError>)
    requires
        transform < scene.transforms@.len(),
    ensures
        match r {
            Ok(found) => ancestors_from(
                scene,
                scene.transforms@[transform as int].1.father,
                scene.transforms@.len(),
            ) == Ok::<Seq<Found>, RepackError>(found@) && all_in_range(scene, found@),
            Err(e) => ancestors_from(
                scene,
                scene.transforms@[transform as int].1.father,
                scene.transforms@.len(),
            ) == Err::<Seq<Found>, RepackError>(e),
        },
{
    let mut out: Vec<Found> = Vec::new();
    let mut next: Pptr = scene.transforms[transform].1.father;
    let mut fuel: usize = scene.transforms.len();
    let ghost whole = ancestors_from(scene, next, fuel as nat);
    proof {
        if whole is Ok {
            assert(out@ + whole->Ok_0 =~= whole->Ok_0);
        }
    }
    loop
        invariant
            transform < scene.transforms@.len(),
            whole == ancestors_from(
                scene,
                scene.transforms@[transform as int].1.father,
                scene.transforms@.len(),
            ),
            all_in_range(scene, out@),
            onward(out@, ancestors_from(scene, next, fuel as nat)) == whole,
        ensures
            whole == Ok::<Seq<Found>, RepackError>(out@),
            all_in_range(scene, out@),
        decreases fuel,
    {
        if next.is_null() {
            assert(out@ + Seq::<Found>::empty() =~= out@);
            break ;
        }
        let t = match scene.find_transform(next.path_id) {
            None => {
                return Err(RepackError::MissingObject(next.path_id));
            },
            Some(t) => t,
        };
        if fuel == 0 {
            return Err(RepackError::Internal);
        }
        let ghost before = out@;
        let step = Found { path_id: next.path_id, transform: t };
        out.push(step);
        proof {
            let after = ancestors_from(scene, scene.transforms@[t as int].1.father, (fuel - 1) as nat);
            if after is Ok {
                assert(before + (seq![step] + after->Ok_0) =~= out@ + after->Ok_0);
            }
        }
        next = scene.transforms[t].1.father;
        fuel = fuel - 1;
    }
    Ok(out)
}

/// The position among the first `n` components of the first that is a
/// transform of the scene, and where that transform stands.
pub open spec fn transform_among(scene: &SceneObjects, components: Seq<Pptr>, from: int) -> Option<
    int,
>
    decreases components.len() - from,
{
    if from < 0 || from >= components.len() {
        None
    } else {
        match scene.transform_at(components[from].path_id) {
            Some(t) => Some(t),
            None => transform_among(scene, components, from + 1),
        }
    }
}

/// Finds the transform of a game object: the first of its components that
/// is a transform of the scene.
pub fn transform_of(scene: &SceneObjects, game_object: usize) -> (r: Option<usize>)
    requires
        game_object < scene.game_objects@.len(),
    ensures
        match r {
            Some(t) => transform_among(
                scene,
                scene.game_objects@[game_object as int].1.components@,
                0,
            ) == Some(t as int) && t < scene.transforms@.len(),
            None => transform_among(
                scene,
                scene.game_objects@[game_object as int].1.components@,
                0,
            ) is None,
        },
{
    let components = &scene.game_objects[game_object].1.components;
    let mut i: usize = 0;
    while i < components.len()
        invariant
            i <= components.len(),
            game_object < scene.game_objects@.len(),
            *components == scene.game_objects@[game_object as int].1.components,
            transform_among(scene, components@, 0) == transform_among(scene, components@, i as int),
        decreases components.len() - i,
    {
        match scene.find_transform(components[i].path_id) {
            Some(t) => {
                return Some(t);
            },
            None => {},
        }
        i += 1;
    }
    None
}

/// The names of the game objects of the first `n` transforms, the last
/// first, each with a slash behind it. A game object that is absent is a
/// failure.
pub open spec fn names_above(scene: &SceneObjects, found: Seq<Found>, n: int) -> Result<
    Seq<char>,
    RepackError,
>
    decreases n,
{
    if n <= 0 {
        Ok(Seq::empty())
    } else {
        let go = scene.transforms@[found[n - 1].transform as int].1.game_object.path_id;
        match names_above(scene, found, n - 1) {
            Err(e) => Err(e),
            Ok(below) => match scene.game_object_at(go) {
                None => Err(RepackError::MissingObject(go)),
                Some(g) => Ok(scene.game_objects@[g].1.name@ + seq!['/'] + below),
            },
        }
    }
}

/// The hierarchy path of a game object: the names from the root down to
/// the object, with slashes between them.
pub open spec fn path_of(scene: &SceneObjects, game_object: int) -> Result<Seq<char>, RepackError> {
    let own = scene.game_objects@[game_object];
    match transform_among(scene, own.1.components@, 0) {
        None => Err(RepackError::MissingObject(own.0)),
        Some(t) => match ancestors_from(
            scene,
            scene.transforms@[t].1.father,
            scene.transforms@.len(),
        ) {
            Err(e) => Err(e),
            Ok(found) => match names_above(scene, found, found.len() as int) {
                Err(e) => Err(e),
                Ok(above) => Ok(above + own.1.name@),
            },
        },
    }
}

/// Spells the hierarchy path of a game object.
///
/// A game object without a transform, and a transform or game object on
/// the way up that is absent, are failures.
pub fn game_object_path(scene: &SceneObjects, game_object: usize) -> (r: Result<String, RepackError>)
    requires
        game_object < scene.game_objects@.len(),
    ensures
        match r {
            Ok(path) => path_of(scene, game_object as int) == Ok::<Seq<char>, RepackError>(path@),
            Err(e) => path_of(scene, game_object as int) == Err::<Seq<char>, RepackError>(e),
        },
{
    let t = match transform_of(scene, game_object) {
        Some(t) => t,
        None => {
            return Err(RepackError::MissingObject(scene.game_objects[game_object].0));
        },
    };
    let found = match ancestors(scene, t) {
        Ok(found) => found,
        Err(e) => {
            return Err(e);
        },
    };
    proof {
        reveal_strlit("/");
    }
    let mut above = String::new();
    let mut n: usize = 0;
    while n < found.len()
        invariant
            n <= found.len(),
            game_object < scene.game_objects@.len(),
            t < scene.transforms@.len(),
            transform_among(scene, scene.game_objects@[game_object as int].1.components@, 0) == Some(
                t as int,
            ),
            ancestors_from(scene, scene.transforms@[t as int].1.father, scene.transforms@.len()) == Ok::<
                Seq<Found>,
                RepackError,
            >(found@),
            all_in_range(scene, found@),
            names_above(scene, found@, n as int) == Ok::<Seq<char>, RepackError>(above@),
        decreases found.len() - n,
    {
        let go = scene.transforms[found[n].transform].1.game_object.path_id;
        match scene.find_game_object(go) {
            None => {
                proof {
                    lemma_names_failure_stays(scene, found@, n + 1, found@.len() as int);
                }
                return Err(RepackError::MissingObject(go));
            },
            Some(g) => {
                let ghost below = above@;
                proof {
                    reveal_strlit("/");
                }
                let longer = scene.game_objects[g].1.name.clone().concat("/").concat(above.as_str());
                assert(longer@ =~= scene.game_objects@[g as int].1.name@ + seq!['/'] + below);
                above = longer;
            },
        }
        n += 1;
    }
    Ok(above.concat(scene.game_objects[game_object].1.name.as_str()))
}

pub proof fn lemma_names_failure_stays(scene: &SceneObjects, found: Seq<Found>, n: int, m: int)
    requires
        n <= m,
        names_above(scene, found, n) is Err,
    ensures
        names_above(scene, found, m) == names_above(scene, found, n),
    decreases m - n,
{
    if n < m {
        lemma_names_failure_stays(scene, found, n, m - 1);
    }
}

} // verus!
