use rustc_hash::FxHashMap;
use unity_scene_repacker::error::RepackError;
use unity_scene_repacker::merge_serialized::{
    add_scene_meta_to_builder, check_fits, collect_used_types, remap_objects, remap_vecs,
    remap_vecs_all, RemapSerializedIndices, SerializedFileBuilder,
};
use unity_scene_repacker::serialized::{
    FileIdentifier, ObjectInfo, ScriptType, SerializedFile, SerializedType,
};
use unity_scene_repacker::typetree::TypeTreeNode;
use unity_scene_repacker::typetree_cache::TypeTreeCache;
use unity_scene_repacker::walker::Endianness;

fn node(ty: &str, name: &str, children: Vec<TypeTreeNode>) -> TypeTreeNode {
    TypeTreeNode { ty: ty.to_owned(), name: name.to_owned(), level: 0, meta_flag: 0, children }
}

fn link_tree() -> TypeTreeNode {
    node(
        "Link",
        "Base",
        vec![node(
            "PPtr<Link>",
            "m_Next",
            vec![node("int", "m_FileID", vec![]), node("SInt64", "m_PathID", vec![])],
        )],
    )
}

fn ty(class_id: i32, script_type_index: i16, tree: Option<TypeTreeNode>) -> SerializedType {
    SerializedType {
        class_id,
        is_stripped_type: false,
        script_type_index,
        script_id: 0,
        old_type_hash: 0,
        type_tree: tree,
        class_name: None,
        name_space: None,
        asm_name: None,
        type_dependencies: vec![],
    }
}

fn object(path_id: i64, offset: i64, size: u32, type_id: i32, class_id: i32) -> ObjectInfo {
    ObjectInfo {
        path_id,
        offset,
        size,
        type_id,
        class_id,
        is_destroyed: None,
        script_type_index: None,
        stripped: None,
    }
}

fn link_bytes(file_id: i32, path_id: i64) -> Vec<u8> {
    let mut data = Vec::new();
    data.extend_from_slice(&file_id.to_le_bytes());
    data.extend_from_slice(&path_id.to_le_bytes());
    data
}

fn file(types: Vec<SerializedType>, objects: Vec<ObjectInfo>) -> SerializedFile {
    SerializedFile {
        endianness: Endianness::Little,
        big_id_enabled: None,
        types,
        script_types: vec![],
        externals: vec![],
        objects,
        ref_types: Some(0),
    }
}

#[test]
fn builder_hands_out_path_ids_from_two_on() {
    let mut builder = SerializedFileBuilder::new();
    assert_eq!(builder.get_next_path_id(), 2);
    assert_eq!(builder.get_next_path_id(), 3);
    assert_eq!(builder.next_path_id, 4);
}

#[test]
fn builder_appends_types_and_externals() {
    let mut builder = SerializedFileBuilder::new();
    assert_eq!(builder.add_type_uncached(ty(1, -1, None)), 0);
    assert_eq!(builder.add_type_uncached(ty(4, -1, None)), 1);
    assert_eq!(builder.add_external_uncached(FileIdentifier::new("level0".to_owned())), 1);
    assert_eq!(builder.add_external_uncached(FileIdentifier::new("level1".to_owned())), 2);
    assert_eq!(builder.serialized.externals[1].path_name, "level1");
    assert_eq!(builder.serialized.externals[1].guid, Some(0));
    assert_eq!(builder.serialized.externals[1].type_id, Some(0));
    assert_eq!(builder.serialized.externals[1].temp_empty, Some(String::new()));
    builder.add_object(object(9, 0, 0, 1, 4), vec![1, 2]);
    assert_eq!(builder.objects.len(), 1);
    assert_eq!(builder.objects[0].1, vec![1, 2]);
}

#[test]
fn file_identifier_is_copied_in_full() {
    let original = FileIdentifier {
        temp_empty: None,
        guid: Some(77),
        type_id: Some(3),
        path_name: "sharedassets0.assets".to_owned(),
    };
    let copy = original.duplicate();
    assert_eq!(copy.temp_empty, None);
    assert_eq!(copy.guid, Some(77));
    assert_eq!(copy.type_id, Some(3));
    assert_eq!(copy.path_name, "sharedassets0.assets");
}

#[test]
fn well_formed_files_have_valid_types_and_distinct_path_ids() {
    assert!(file(vec![ty(1, -1, None)], vec![object(5, 0, 0, 0, 1), object(6, 0, 0, 0, 1)]).is_well_formed());
    assert!(!file(vec![ty(1, -1, None)], vec![object(5, 0, 0, 1, 1)]).is_well_formed());
    assert!(!file(vec![ty(1, -1, None)], vec![object(5, 0, 0, -1, 1)]).is_well_formed());
    assert!(!file(vec![ty(1, -1, None)], vec![object(5, 0, 0, 0, 1), object(5, 0, 0, 0, 1)]).is_well_formed());
    assert!(file(vec![], vec![]).is_well_formed());
}

#[test]
fn used_types_are_those_of_the_objects() {
    let f = file(
        vec![ty(1, -1, None), ty(4, -1, None), ty(33, -1, None)],
        vec![object(5, 0, 0, 2, 33), object(6, 0, 0, 0, 1)],
    );
    assert_eq!(collect_used_types(&f), vec![true, false, true]);
}

#[test]
fn moving_all_elements_records_where_each_index_went() {
    let mut from = vec!['a', 'b'];
    let mut into = vec!['x', 'y', 'z'];
    let remap = remap_vecs_all(&mut from, &mut into);
    assert!(from.is_empty());
    assert_eq!(into, vec!['x', 'y', 'z', 'a', 'b']);
    assert_eq!(remap.len(), 2);
    assert_eq!(remap[&0], 3);
    assert_eq!(remap[&1], 4);
    let mut from = vec!['a', 'b'];
    let mut into: Vec<char> = vec![];
    let remap = remap_vecs_all(&mut from, &mut into);
    assert_eq!(into, vec!['a', 'b']);
    assert!(remap.is_empty());
}

#[test]
fn moving_the_elements_in_use_drops_the_others() {
    let mut from = vec!['a', 'b', 'c', 'd'];
    let mut into = vec!['x'];
    let remap = remap_vecs(&vec![false, true, false, true], &mut from, &mut into);
    assert!(from.is_empty());
    assert_eq!(into, vec!['x', 'b', 'd']);
    assert_eq!(remap.len(), 2);
    assert_eq!(remap[&1], 1);
    assert_eq!(remap[&3], 2);
}

#[test]
fn scene_metadata_is_appended_and_remapped() {
    let mut builder = SerializedFileBuilder::new();
    builder.add_external_uncached(FileIdentifier::new("extra.assets".to_owned()));
    builder.add_type_uncached(ty(142, -1, None));
    builder.serialized.script_types.push(ScriptType {
        local_serialized_file_index: 1,
        local_identifier_in_file: 50,
    });
    let mut f = file(
        vec![ty(1, -1, None), ty(114, 0, None), ty(114, 1, None), ty(4, -1, None)],
        vec![object(100, 0, 12, 3, 4), object(-7, 16, 12, 1, 114), object(30, 32, 12, 3, 4)],
    );
    f.externals = vec![
        FileIdentifier::new("globalgamemanagers.assets".to_owned()),
        FileIdentifier::new("sharedassets1.assets".to_owned()),
    ];
    f.script_types = vec![
        ScriptType { local_serialized_file_index: 2, local_identifier_in_file: 11 },
        ScriptType { local_serialized_file_index: 0, local_identifier_in_file: 12 },
    ];
    assert!(check_fits(&builder, &f));
    let remap = add_scene_meta_to_builder(&mut builder, &mut f).unwrap();
    assert_eq!(remap.path_id.len(), 3);
    assert_eq!(remap.path_id[&100], 2);
    assert_eq!(remap.path_id[&-7], 3);
    assert_eq!(remap.path_id[&30], 4);
    assert_eq!(builder.next_path_id, 5);
    assert_eq!(remap.file_id.len(), 2);
    assert_eq!(remap.file_id[&1], 2);
    assert_eq!(remap.file_id[&2], 3);
    let names: Vec<&str> = builder.serialized.externals.iter().map(|e| e.path_name.as_str()).collect();
    assert_eq!(names, vec!["extra.assets", "globalgamemanagers.assets", "sharedassets1.assets"]);
    assert_eq!(f.externals.len(), 2);
    assert_eq!(builder.serialized.script_types.len(), 3);
    assert_eq!(builder.serialized.script_types[1].local_serialized_file_index, 3);
    assert_eq!(builder.serialized.script_types[1].local_identifier_in_file, 11);
    assert_eq!(builder.serialized.script_types[2].local_serialized_file_index, 0);
    assert!(f.script_types.is_empty());
    assert_eq!(remap.types.len(), 2);
    assert_eq!(remap.types[&1], 1);
    assert_eq!(remap.types[&3], 2);
    assert_eq!(builder.serialized.types.len(), 3);
    assert_eq!(builder.serialized.types[1].class_id, 114);
    assert_eq!(builder.serialized.types[1].script_type_index, 1);
    assert_eq!(builder.serialized.types[2].class_id, 4);
    assert_eq!(builder.serialized.types[2].script_type_index, -1);
    assert!(f.types.is_empty());
    assert_eq!(f.objects.len(), 3);
}

#[test]
fn scene_with_reference_types_is_refused() {
    let mut builder = SerializedFileBuilder::new();
    let mut f = file(vec![ty(1, -1, None)], vec![object(1, 0, 0, 0, 1)]);
    f.ref_types = Some(2);
    let r = add_scene_meta_to_builder(&mut builder, &mut f);
    assert_eq!(r.err(), Some(RepackError::UnsupportedFeature));
    assert_eq!(builder.next_path_id, 2);
    assert_eq!(f.types.len(), 1);
    f.ref_types = None;
    assert!(add_scene_meta_to_builder(&mut builder, &mut f).is_ok());
}

#[test]
fn room_in_the_merged_file_is_checked() {
    let mut builder = SerializedFileBuilder::new();
    let f = file(vec![ty(1, -1, None)], vec![object(1, 0, 0, 0, 1)]);
    assert!(check_fits(&builder, &f));
    builder.next_path_id = i64::MAX;
    assert!(!check_fits(&builder, &f));
    builder.next_path_id = i64::MAX - 1;
    assert!(check_fits(&builder, &f));
    builder.next_path_id = -5;
    assert!(check_fits(&builder, &f));
}

fn remap_of(paths: &[(i64, i64)], files: &[(i32, i32)], types: &[(i32, i32)]) -> RemapSerializedIndices {
    RemapSerializedIndices {
        path_id: paths.iter().copied().collect(),
        file_id: files.iter().copied().collect(),
        types: types.iter().copied().collect(),
    }
}

#[test]
fn objects_get_new_ids_and_their_pointers_are_remapped() {
    let merged = file(vec![ty(142, -1, None), ty(1000, -1, Some(link_tree()))], vec![]);
    let mut data = vec![0u8; 8];
    data.extend_from_slice(&link_bytes(0, 20));
    data.extend_from_slice(&link_bytes(1, 10));
    let objects = vec![object(10, 8, 12, 0, 1000), object(20, 20, 12, 0, 1000)];
    let remap = remap_of(&[(10, 2), (20, 3)], &[(1, 5)], &[(0, 1)]);
    let out = remap_objects(
        &merged,
        &data,
        &TypeTreeCache::new(),
        objects,
        &FxHashMap::default(),
        &FxHashMap::default(),
        &remap,
        Endianness::Little,
    )
    .unwrap();
    assert_eq!(out.len(), 2);
    assert_eq!((out[0].0.path_id, out[0].0.type_id, out[0].0.class_id), (2, 1, 1000));
    assert_eq!(out[0].1, link_bytes(0, 3));
    assert_eq!((out[1].0.path_id, out[1].0.type_id), (3, 1));
    assert_eq!(out[1].1, link_bytes(5, 10));
    assert_eq!((out[1].0.offset, out[1].0.size), (20, 12));
}

#[test]
fn override_and_script_tree_take_precedence() {
    let merged = file(vec![ty(114, -1, None)], vec![]);
    let data = link_bytes(0, 10);
    let objects = vec![object(10, 0, 12, 0, 114)];
    let remap = remap_of(&[(10, 2), (44, 3)], &[], &[(0, 0)]);
    let mut replacements: FxHashMap<i64, Vec<u8>> = FxHashMap::default();
    replacements.insert(10, link_bytes(0, 44));
    let mut scripts: FxHashMap<i64, TypeTreeNode> = FxHashMap::default();
    scripts.insert(10, link_tree());
    let out = remap_objects(
        &merged,
        &data,
        &TypeTreeCache::new(),
        objects.clone(),
        &replacements,
        &scripts,
        &remap,
        Endianness::Little,
    )
    .unwrap();
    assert_eq!(out[0].1, link_bytes(0, 3));
    assert_eq!(replacements[&10], link_bytes(0, 44));
    let mut cache = TypeTreeCache::new();
    cache.insert(114, Some(link_tree()));
    let out = remap_objects(
        &merged,
        &data,
        &cache,
        objects.clone(),
        &FxHashMap::default(),
        &FxHashMap::default(),
        &remap,
        Endianness::Little,
    )
    .unwrap();
    assert_eq!(out[0].1, link_bytes(0, 2));
    let r = remap_objects(
        &merged,
        &data,
        &TypeTreeCache::new(),
        objects,
        &FxHashMap::default(),
        &FxHashMap::default(),
        &remap,
        Endianness::Little,
    );
    assert_eq!(r.err(), Some(RepackError::MissingType(114)));
}

#[test]
fn objects_that_cannot_be_remapped_fail() {
    let merged = file(vec![ty(1000, -1, Some(link_tree()))], vec![]);
    let data = link_bytes(0, 10);
    let none: FxHashMap<i64, Vec<u8>> = FxHashMap::default();
    let scripts: FxHashMap<i64, TypeTreeNode> = FxHashMap::default();
    let cache = TypeTreeCache::new();
    let r = remap_objects(
        &merged,
        &data,
        &cache,
        vec![object(10, 0, 12, 3, 1000)],
        &none,
        &scripts,
        &remap_of(&[], &[], &[(0, 0)]),
        Endianness::Little,
    );
    assert_eq!(r.err(), Some(RepackError::Internal));
    let r = remap_objects(
        &merged,
        &data,
        &cache,
        vec![object(10, 0, 12, 0, 1000)],
        &none,
        &scripts,
        &remap_of(&[], &[], &[(0, 7)]),
        Endianness::Little,
    );
    assert_eq!(r.err(), Some(RepackError::Internal));
    let r = remap_objects(
        &merged,
        &data,
        &cache,
        vec![object(10, 4, 12, 0, 1000)],
        &none,
        &scripts,
        &remap_of(&[], &[], &[(0, 0)]),
        Endianness::Little,
    );
    assert_eq!(r.err(), Some(RepackError::Parse));
    let r = remap_objects(
        &merged,
        &data,
        &cache,
        vec![object(10, 0, 8, 0, 1000)],
        &none,
        &scripts,
        &remap_of(&[], &[], &[(0, 0)]),
        Endianness::Little,
    );
    assert_eq!(r.err(), Some(RepackError::Parse));
    let unsupported = file(
        vec![ty(1000, -1, Some(node("Thing", "Base", vec![node("TypelessData", "m_Data", vec![])])))],
        vec![],
    );
    let r = remap_objects(
        &unsupported,
        &data,
        &cache,
        vec![object(10, 0, 12, 0, 1000)],
        &none,
        &scripts,
        &remap_of(&[], &[], &[(0, 0)]),
        Endianness::Little,
    );
    assert_eq!(r.err(), Some(RepackError::UnsupportedFeature));
}
