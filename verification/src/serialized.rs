//! The parts of a serialized file that the repacker reads and rewrites.

use crate::idset::{id_set_insert, id_set_new};
use crate::pptr::{FileId, PathId};
use crate::typetree::TypeTreeNode;
use crate::walker::Endianness;
use std::collections::BTreeSet;
use vstd::prelude::*;

verus! {

pub const CLASS_GAME_OBJECT: i32 = 1;

pub const CLASS_TRANSFORM: i32 = 4;

pub const CLASS_RENDER_SETTINGS: i32 = 104;

pub const CLASS_MONO_BEHAVIOUR: i32 = 114;

pub const CLASS_MONO_SCRIPT: i32 = 115;

pub const CLASS_BUILD_SETTINGS: i32 = 141;

pub const CLASS_ASSET_BUNDLE: i32 = 142;

pub const CLASS_PRELOAD_DATA: i32 = 150;

/// One entry of a file's object table.
///
/// `type_id` is an index into the types of the file that holds the object.
#[derive(Clone, Copy, Debug)]
pub struct ObjectInfo {
    pub path_id: PathId,
    pub offset: i64,
    pub size: u32,
    pub type_id: i32,
    pub class_id: i32,
    pub is_destroyed: Option<u16>,
    pub script_type_index: Option<i16>,
    pub stripped: Option<u8>,
}

/// The script that a user-defined type belongs to, as a pointer.
#[derive(Clone, Copy, Debug)]
pub struct ScriptType {
    pub local_serialized_file_index: FileId,
    pub local_identifier_in_file: PathId,
}

/// Names a sibling file that pointers of a file may lead into.
#[derive(Debug)]
pub struct FileIdentifier {
    pub temp_empty: Option<String>,
    /// The sixteen bytes of the guid as one number, first byte least significant.
    pub guid: Option<u128>,
    pub type_id: Option<i32>,
    pub path_name: String,
}

/// A file identifier as plain values.
pub struct FileIdentifierModel {
    pub temp_empty: Option<Seq<char>>,
    pub guid: Option<u128>,
    pub type_id: Option<i32>,
    pub path_name: Seq<char>,
}

impl View for FileIdentifier {
    type V = FileIdentifierModel;

    open spec fn view(&self) -> FileIdentifierModel {
        FileIdentifierModel {
            temp_empty: match self.temp_empty {
                Some(s) => Some(s@),
                None => None,
            },
            guid: self.guid,
            type_id: self.type_id,
            path_name: self.path_name@,
        }
    }
}

/// The identifier that stands for a file of the given name alone.
pub open spec fn named_file(path_name: Seq<char>) -> FileIdentifierModel {
    FileIdentifierModel {
        temp_empty: Some(Seq::empty()),
        guid: Some(0u128),
        type_id: Some(0i32),
        path_name,
    }
}

/// The identifiers as plain values.
pub open spec fn file_models(externals: Seq<FileIdentifier>) -> Seq<FileIdentifierModel> {
    Seq::new(externals.len(), |i: int| externals[i]@)
}

impl FileIdentifier {
    /// The identifier of the file with the given name.
    pub fn new(path_name: String) -> (r: FileIdentifier)
        ensures
            r@ == named_file(path_name@),
    {
        FileIdentifier {
            temp_empty: Some(String::new()),
            guid: Some(0),
            type_id: Some(0),
            path_name,
        }
    }

    /// A copy of the identifier.
    pub fn duplicate(&self) -> (r: FileIdentifier)
        ensures
            r == *self,
    {
        let temp_empty = match &self.temp_empty {
            Some(s) => Some(s.clone()),
            None => None,
        };
        FileIdentifier {
            temp_empty,
            guid: self.guid,
            type_id: self.type_id,
            path_name: self.path_name.clone(),
        }
    }
}

/// One entry of a file's type list.
#[derive(Debug)]
pub struct SerializedType {
    pub class_id: i32,
    pub is_stripped_type: bool,
    pub script_type_index: i16,
    /// Sixteen bytes as one number, first byte least significant.
    pub script_id: u128,
    /// Sixteen bytes as one number, first byte least significant.
    pub old_type_hash: u128,
    pub type_tree: Option<TypeTreeNode>,
    pub class_name: Option<String>,
    pub name_space: Option<String>,
    pub asm_name: Option<String>,
    pub type_dependencies: Vec<i32>,
}

/// The structured view of a serialized file.
#[derive(Debug)]
pub struct SerializedFile {
    pub endianness: Endianness,
    pub big_id_enabled: Option<i32>,
    pub types: Vec<SerializedType>,
    pub script_types: Vec<ScriptType>,
    pub externals: Vec<FileIdentifier>,
    pub objects: Vec<ObjectInfo>,
    /// How many reference types the file declares, if it has that table.
    pub ref_types: Option<usize>,
}

/// Whether no two objects of the list bear one path id.
pub open spec fn distinct_path_ids(objects: Seq<ObjectInfo>) -> bool {
    forall|i: int, j: int|
        0 <= i < j < objects.len() ==> (#[trigger] objects[i]).path_id != (
        #[trigger] objects[j]).path_id
}

/// The path ids of the objects.
pub open spec fn path_ids(objects: Seq<ObjectInfo>) -> Set<PathId> {
    Set::new(|id: PathId| exists|i: int| 0 <= i < objects.len() && (#[trigger] objects[i]).path_id == id)
}

/// Whether every object of the list names a type among the first `types`.
pub open spec fn types_in_range(objects: Seq<ObjectInfo>, types: nat) -> bool {
    forall|i: int| 0 <= i < objects.len() ==> 0 <= (#[trigger] objects[i]).type_id < types
}

impl SerializedFile {
    /// Whether every object names a type that the file has, and no two
    /// objects bear one path id.
    pub open spec fn well_formed(&self) -> bool {
        types_in_range(self.objects@, self.types@.len()) && distinct_path_ids(self.objects@)
    }

    /// Tests whether every object names a type that the file has, and no
    /// two objects bear one path id.
    pub fn is_well_formed(&self) -> (r: bool)
        ensures
            r == self.well_formed(),
    {
        let mut seen: BTreeSet<PathId> = id_set_new();
        let mut i: usize = 0;
        while i < self.objects.len()
            invariant
                i <= self.objects.len(),
                types_in_range(self.objects@.take(i as int), self.types@.len()),
                distinct_path_ids(self.objects@.take(i as int)),
                seen@ == path_ids(self.objects@.take(i as int)),
            decreases self.objects.len() - i,
        {
            let type_id = self.objects[i].type_id;
            let ghost before = self.objects@.take(i as int);
            let ghost now = self.objects@.take(i + 1);
            if type_id < 0 || type_id as usize >= self.types.len() {
                return false;
            }
            if !id_set_insert(&mut seen, self.objects[i].path_id) {
                proof {
                    let j = choose|j: int|
                        0 <= j < before.len() && (#[trigger] before[j]).path_id
                            == self.objects@[i as int].path_id;
                    assert(self.objects@[j].path_id == self.objects@[i as int].path_id);
                }
                return false;
            }
            proof {
                assert forall|k: int| 0 <= k < i + 1 implies 0 <= (#[trigger] now[k]).type_id
                    < self.types@.len() by {
                    if k < i {
                        assert(now[k] == before[k]);
                    }
                }
                assert forall|a: int, b: int| 0 <= a < b < now.len() implies (#[trigger] now[a]).path_id
                    != (#[trigger] now[b]).path_id by {
                    if b < i {
                        assert(now[a] == before[a] && now[b] == before[b]);
                    } else {
                        assert(now[a] == before[a]);
                        if now[a].path_id == now[b].path_id {
                            assert(path_ids(before).contains(before[a].path_id));
                        }
                    }
                }
                assert(seen@ =~= path_ids(now)) by {
                    assert forall|id: PathId| seen@.contains(id) <==> path_ids(now).contains(id) by {
                        if path_ids(now).contains(id) {
                            let k = choose|k: int| 0 <= k < now.len() && (#[trigger] now[k]).path_id == id;
                            if k < i {
                                assert(before[k].path_id == id);
                            }
                        }
                        if path_ids(before).contains(id) {
                            let k = choose|k: int|
                                0 <= k < before.len() && (#[trigger] before[k]).path_id == id;
                            assert(now[k].path_id == id);
                        }
                        if id == self.objects@[i as int].path_id {
                            assert(now[i as int].path_id == id);
                        }
                    }
                }
            }
            i += 1;
        }
        assert(self.objects@.take(i as int) =~= self.objects@);
        true
    }
}

} // verus!
