//! The engine's classes that the repacker reads, as plain values.

use crate::pptr::{PathId, Pptr};
use crate::paths::{file_name, file_name_of, file_stem, stem_of};
use crate::text::str_eq;
use vstd::prelude::*;
use vstd::string::StringExecFns;

verus! {

/// A node of a scene's hierarchy.
#[derive(Debug)]
pub struct Transform {
    pub game_object: Pptr,
    pub children: Vec<Pptr>,
    pub father: Pptr,
}

/// An object of a scene: a name, a state and its components.
#[derive(Debug)]
pub struct GameObject {
    pub components: Vec<Pptr>,
    pub layer: u32,
    pub name: String,
    pub tag: u16,
    pub is_active: bool,
}

/// A component that a user script defines.
#[derive(Debug)]
pub struct MonoBehaviour {
    pub game_object: Pptr,
    pub enabled: u8,
    pub script: Pptr,
    pub name: String,
}

/// Names the user script of a component: assembly, namespace and class.
#[derive(Debug)]
pub struct MonoScript {
    pub name: String,
    pub execution_order: i32,
    /// Sixteen bytes as one number, first byte least significant.
    pub properties_hash: u128,
    pub class_name: String,
    pub namespace: String,
    pub assembly_name: String,
}

/// The class name, behind the namespace and a dot if there is a namespace.
pub open spec fn qualified_name(namespace: Seq<char>, class_name: Seq<char>) -> Seq<char> {
    if namespace.len() == 0 {
        class_name
    } else {
        namespace + seq!['.'] + class_name
    }
}

impl MonoScript {
    /// The name of the class with its namespace.
    pub fn full_name(&self) -> (r: String)
        ensures
            r@ == qualified_name(self.namespace@, self.class_name@),
    {
        proof {
            reveal_strlit(".");
        }
        if self.namespace.as_str().unicode_len() == 0 {
            self.class_name.clone()
        } else {
            let r = self.namespace.clone().concat(".").concat(self.class_name.as_str());
            assert(r@ =~= self.namespace@ + seq!['.'] + self.class_name@);
            r
        }
    }

    /// The assembly and the name of the class with its namespace.
    pub fn into_location(self) -> (r: (String, String))
        ensures
            r.0@ == self.assembly_name@,
            r.1@ == qualified_name(self.namespace@, self.class_name@),
    {
        let full_name = self.full_name();
        (self.assembly_name, full_name)
    }
}

/// The scenes that the game was built with, by their paths.
#[derive(Debug)]
pub struct BuildSettings {
    pub scenes: Vec<String>,
}

/// The name of a scene: the last component of its path without the extension.
pub open spec fn scene_name_of(path: Seq<char>) -> Seq<char> {
    stem_of(file_name_of(path))
}

/// The position of the last among the first `n` scenes that bears the name.
pub open spec fn last_scene_named(scenes: Seq<String>, name: Seq<char>, n: int) -> Option<int>
    decreases n,
{
    if n <= 0 {
        None
    } else if scene_name_of(scenes[n - 1]@) == name {
        Some(n - 1)
    } else {
        last_scene_named(scenes, name, n - 1)
    }
}

impl BuildSettings {
    /// The names of the scenes, in the order of the build.
    pub fn scene_names(&self) -> (r: Vec<String>)
        ensures
            r@.len() == self.scenes@.len(),
            forall|i: int| 0 <= i < r@.len() ==> (#[trigger] r@[i])@ == scene_name_of(self.scenes@[i]@),
    {
        let mut names: Vec<String> = Vec::new();
        let mut i: usize = 0;
        while i < self.scenes.len()
            invariant
                i <= self.scenes.len(),
                names@.len() == i,
                forall|k: int|
                    0 <= k < i ==> (#[trigger] names@[k])@ == scene_name_of(self.scenes@[k]@),
            decreases self.scenes.len() - i,
        {
            let name = file_stem(file_name(self.scenes[i].as_str()));
            names.push(name.to_owned());
            i += 1;
        }
        names
    }

    /// The index of the scene with the given name. Of several scenes with
    /// one name the last counts.
    pub fn scene_index(&self, name: &str) -> (r: Option<usize>)
        ensures
            match r {
                Some(i) => last_scene_named(self.scenes@, name@, self.scenes@.len() as int) == Some(
                    i as int,
                ) && i < self.scenes@.len(),
                None => last_scene_named(self.scenes@, name@, self.scenes@.len() as int) is None,
            },
    {
        let mut n: usize = self.scenes.len();
        while n > 0
            invariant
                n <= self.scenes.len(),
                last_scene_named(self.scenes@, name@, self.scenes@.len() as int)
                    == last_scene_named(self.scenes@, name@, n as int),
            decreases n,
        {
            if str_eq(file_stem(file_name(self.scenes[n - 1].as_str())), name) {
                return Some(n - 1);
            }
            n -= 1;
        }
        None
    }
}

/// Points at an object that a bundle offers under a name.
#[derive(Clone, Copy, Debug)]
pub struct AssetInfo {
    pub preload_index: i32,
    pub preload_size: i32,
    pub asset: Pptr,
}

impl AssetInfo {
    /// The entry for the object that `asset` points at.
    pub fn new(asset: Pptr) -> (r: AssetInfo)
        ensures
            r == (AssetInfo { preload_index: 0, preload_size: 0, asset }),
    {
        AssetInfo { preload_index: 0, preload_size: 0, asset }
    }

    /// The entry that points at nothing.
    pub fn empty() -> (r: AssetInfo)
        ensures
            r == (AssetInfo {
                preload_index: 0,
                preload_size: 0,
                asset: Pptr { file_id: 0, path_id: 0 },
            }),
    {
        AssetInfo { preload_index: 0, preload_size: 0, asset: Pptr { file_id: 0, path_id: 0 } }
    }
}

/// The transforms and game objects of a scene, decoded, each with its path
/// id. Both lists are in the order of the file's object table.
#[derive(Debug)]
pub struct SceneObjects {
    pub transforms: Vec<(PathId, Transform)>,
    pub game_objects: Vec<(PathId, GameObject)>,
}

/// The position of the first transform with the path id at or behind `from`.
pub open spec fn first_transform(transforms: Seq<(PathId, Transform)>, path_id: PathId, from: int)
    -> Option<int>
    decreases transforms.len() - from,
{
    if from < 0 || from >= transforms.len() {
        None
    } else if transforms[from].0 == path_id {
        Some(from)
    } else {
        first_transform(transforms, path_id, from + 1)
    }
}

/// The position of the first game object with the path id at or behind `from`.
pub open spec fn first_game_object(
    game_objects: Seq<(PathId, GameObject)>,
    path_id: PathId,
    from: int,
) -> Option<int>
    decreases game_objects.len() - from,
{
    if from < 0 || from >= game_objects.len() {
        None
    } else if game_objects[from].0 == path_id {
        Some(from)
    } else {
        first_game_object(game_objects, path_id, from + 1)
    }
}

impl SceneObjects {
    /// Where the transform with the path id stands, if the scene has it.
    pub open spec fn transform_at(&self, path_id: PathId) -> Option<int> {
        first_transform(self.transforms@, path_id, 0)
    }

    /// Where the game object with the path id stands, if the scene has it.
    pub open spec fn game_object_at(&self, path_id: PathId) -> Option<int> {
        first_game_object(self.game_objects@, path_id, 0)
    }

    /// Finds the transform with the path id.
    pub fn find_transform(&self, path_id: PathId) -> (r: Option<usize>)
        ensures
            match r {
                Some(i) => self.transform_at(path_id) == Some(i as int) && i
                    < self.transforms@.len() && self.transforms@[i as int].0 == path_id,
                None => self.transform_at(path_id) is None,
            },
    {
        let mut i: usize = 0;
        while i < self.transforms.len()
            invariant
                i <= self.transforms.len(),
                first_transform(self.transforms@, path_id, 0) == first_transform(
                    self.transforms@,
                    path_id,
                    i as int,
                ),
            decreases self.transforms.len() - i,
        {
            if self.transforms[i].0 == path_id {
                return Some(i);
            }
            i += 1;
        }
        None
    }

    /// Finds the game object with the path id.
    pub fn find_game_object(&self, path_id: PathId) -> (r: Option<usize>)
        ensures
            match r {
                Some(i) => self.game_object_at(path_id) == Some(i as int) && i
                    < self.game_objects@.len() && self.game_objects@[i as int].0 == path_id,
                None => self.game_object_at(path_id) is None,
            },
    {
        let mut i: usize = 0;
        while i < self.game_objects.len()
            invariant
                i <= self.game_objects.len(),
                first_game_object(self.game_objects@, path_id, 0) == first_game_object(
                    self.game_objects@,
                    path_id,
                    i as int,
                ),
            decreases self.game_objects.len() - i,
        {
            if self.game_objects[i].0 == path_id {
                return Some(i);
            }
            i += 1;
        }
        None
    }
}

} // verus!
