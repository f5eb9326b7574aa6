use rustc_hash::FxHashMap;
use std::collections::{BTreeSet, VecDeque};
use unity_scene_repacker::hierarchy::{ancestors, game_object_path, transform_of};
use unity_scene_repacker::error::RepackError;
use unity_scene_repacker::pptr::Pptr;
use unity_scene_repacker::reachable::{index_objects, reachable, reachable_one};
use unity_scene_repacker::repack::{pack_to_asset_bundle, RepackScene};
use unity_scene_repacker::serialized::{FileIdentifier, ObjectInfo, SerializedFile, SerializedType};
use unity_scene_repacker::typetree::TypeTreeNode;
use unity_scene_repacker::typetree_cache::TypeTreeCache;
use unity_scene_repacker::unity_types::{GameObject, SceneObjects, Transform};
use unity_scene_repacker::walker::{replace_pptrs_inplace, trace_pptrs, visit, Endianness};

fn node(ty: &str, name: &str, meta_flag: i32, children: Vec<TypeTreeNode>) -> TypeTreeNode {
    TypeTreeNode { ty: ty.to_owned(), name: name.to_owned(), level: 0, meta_flag, children }
}

fn pptr_node(name: &str) -> TypeTreeNode {
    node(
        "PPtr<Object>",
        name,
        0,
        vec![node("int", "m_FileID", 0, vec![]), node("SInt64", "m_PathID", 0, vec![])],
    )
}

/// An object with a name, a list of pointers and one pointer to its father.
fn knot_tree() -> TypeTreeNode {
    node(
        "Knot",
        "Base",
        0,
        vec![
            node("string", "m_Name", 0, vec![]),
            node(
                "vector",
                "m_Links",
                0x4000,
                vec![node("Array", "Array", 0, vec![node("int", "size", 0, vec![]), pptr_node("data")])],
            ),
            pptr_node("m_Father"),
        ],
    )
}

fn knot_bytes(name: &str, links: &[(i32, i64)], father: i64) -> Vec<u8> {
    let mut data = Vec::new();
    data.extend_from_slice(&(name.len() as u32).to_le_bytes());
    data.extend_from_slice(name.as_bytes());
    while data.len() % 4 != 0 {
        data.push(0);
    }
    data.extend_from_slice(&(links.len() as u32).to_le_bytes());
    for (file_id, path_id) in links {
        data.extend_from_slice(&file_id.to_le_bytes());
        data.extend_from_slice(&path_id.to_le_bytes());
    }
    data.extend_from_slice(&0i32.to_le_bytes());
    data.extend_from_slice(&father.to_le_bytes());
    data
}

fn knots(list: &[(i64, &str, Vec<(i32, i64)>, i64)]) -> (SerializedFile, Vec<u8>) {
    let mut data = Vec::new();
    let mut objects = Vec::new();
    for (path_id, name, links, father) in list {
        let bytes = knot_bytes(name, links, *father);
        objects.push(ObjectInfo {
            path_id: *path_id,
            offset: data.len() as i64,
            size: bytes.len() as u32,
            type_id: 0,
            class_id: 2000,
            is_destroyed: None,
            script_type_index: None,
            stripped: None,
        });
        data.extend_from_slice(&bytes);
    }
    let file = SerializedFile {
        endianness: Endianness::Little,
        big_id_enabled: None,
        types: vec![SerializedType {
            class_id: 2000,
            is_stripped_type: false,
            script_type_index: -1,
            script_id: 0,
            old_type_hash: 0,
            type_tree: Some(knot_tree()),
            class_name: None,
            name_space: None,
            asm_name: None,
            type_dependencies: vec![],
        }],
        script_types: vec![],
        externals: vec![FileIdentifier::new("resources.assets".to_owned())],
        objects,
        ref_types: Some(0),
    };
    (file, data)
}

fn net() -> (SerializedFile, Vec<u8>) {
    knots(&[
        (10, "a", vec![(0, 20), (0, 30), (1, 99)], 0),
        (20, "bb", vec![(0, 40)], 10),
        (30, "ccc", vec![(0, 0)], 10),
        (40, "dddd", vec![(0, 20)], 20),
        (50, "apart", vec![(0, 10)], 0),
    ])
}

#[test]
fn what_is_reached_holds_every_local_target_of_its_objects() {
    let (file, data) = net();
    let cache = TypeTreeCache::new();
    let index = index_objects(&file.objects);
    for start in [10i64, 20, 30, 40, 50] {
        let seen = reachable(&file, &data, &cache, VecDeque::from(vec![start])).unwrap();
        assert!(seen.contains(&start));
        for id in &seen {
            for target in reachable_one(&file, &index, &data, &cache, *id).unwrap() {
                if target.is_local() {
                    assert!(seen.contains(&target.path_id), "{} -> {}", id, target.path_id);
                }
            }
        }
    }
    let seen = reachable(&file, &data, &cache, VecDeque::from(vec![20])).unwrap();
    assert_eq!(seen.into_iter().collect::<Vec<_>>(), vec![20, 40]);
}

fn scene_of<'a>(file: SerializedFile, data: &'a [u8], keep: &[i64]) -> RepackScene<'a> {
    RepackScene {
        original_name: "level0".to_owned(),
        scene_name: Some("Net".to_owned()),
        serialized: file,
        serialized_data: data,
        keep_objects: keep.iter().copied().collect::<BTreeSet<_>>(),
        roots: vec![],
        replacements: FxHashMap::default(),
        monobehaviour_types: FxHashMap::default(),
    }
}

#[test]
fn merged_objects_point_at_merged_objects() {
    let (file_a, data_a) = net();
    let (file_b, data_b) = net();
    let scenes = vec![
        scene_of(file_a, &data_a, &[10, 20, 30, 40]),
        scene_of(file_b, &data_b, &[20, 40]),
    ];
    let plan = pack_to_asset_bundle(&TypeTreeCache::new(), scenes, vec![]).unwrap();
    let objects = &plan.builder.objects;
    assert_eq!(objects.len(), 6);
    let ids: BTreeSet<i64> = objects.iter().map(|(info, _)| info.path_id).collect();
    assert_eq!(ids.into_iter().collect::<Vec<_>>(), vec![2, 3, 4, 5, 6, 7]);
    let tree = knot_tree();
    let mut local = Vec::new();
    for (info, bytes) in objects {
        let mut positions = Vec::new();
        visit(&tree, bytes, 0, false, false, &mut positions).unwrap();
        assert!(!positions.is_empty());
        for found in trace_pptrs(&tree, bytes, Endianness::Little).unwrap() {
            if found.is_local() {
                assert!(2 <= found.path_id && found.path_id < 8, "{:?} in {}", found, info.path_id);
                local.push((info.path_id, found.path_id));
            }
        }
    }
    assert_eq!(local, vec![(2, 3), (2, 4), (3, 5), (5, 3), (6, 7), (7, 6)]);
    let first = &objects[0].1;
    assert_eq!(first, &knot_bytes("a", &[(0, 3), (0, 4), (1, 99)], 0));
    assert_eq!(&objects[1].1, &knot_bytes("bb", &[(0, 5)], 2));
    assert_eq!(&objects[4].1, &knot_bytes("bb", &[(0, 7)], 10));
}

#[test]
fn planning_twice_gives_the_same_plan() {
    let plan = |keep: &[i64]| {
        let (file, data) = net();
        let scene = scene_of(file, &data, keep);
        let plan = pack_to_asset_bundle(&TypeTreeCache::new(), vec![scene], vec![]).unwrap();
        let objects: Vec<(i64, i32, Vec<u8>)> = plan
            .builder
            .objects
            .iter()
            .map(|(info, bytes)| (info.path_id, info.type_id, bytes.clone()))
            .collect();
        (objects, plan.builder.next_path_id, plan.stats.objects_after)
    };
    assert_eq!(plan(&[10, 20, 30, 40]), plan(&[10, 20, 30, 40]));
    assert_ne!(plan(&[10, 20, 30, 40]), plan(&[10, 20, 30]));
    let (objects, next, after) = plan(&[40, 10]);
    assert_eq!(objects.iter().map(|o| o.0).collect::<Vec<_>>(), vec![2, 3]);
    assert_eq!((next, after), (4, 2));
}

#[test]
fn rewrite_keeps_the_place_of_every_field() {
    let tree = knot_tree();
    let before = knot_bytes("name", &[(0, 20), (3, 30), (0, 0)], 20);
    let mut after = before.clone();
    let mut paths: FxHashMap<i64, i64> = FxHashMap::default();
    paths.insert(20, -5);
    let mut files: FxHashMap<i32, i32> = FxHashMap::default();
    files.insert(3, 1);
    replace_pptrs_inplace(&mut after, &tree, &paths, &files, false).unwrap();
    assert_eq!(after, knot_bytes("name", &[(0, -5), (1, 30), (0, 0)], -5));
    let mut first = Vec::new();
    let mut second = Vec::new();
    let end_before = visit(&tree, &before, 0, false, false, &mut first).unwrap();
    let end_after = visit(&tree, &after, 0, false, false, &mut second).unwrap();
    assert_eq!(first, second);
    assert_eq!(first, vec![12, 24, 36, 48]);
    assert_eq!(end_before, end_after);
    for (i, (x, y)) in before.iter().zip(&after).enumerate() {
        if x != y {
            assert!(first.iter().any(|p| *p <= i && i < p + 12), "byte {} changed", i);
        }
    }
}

#[test]
fn cursor_is_padded_behind_strings_and_flagged_nodes() {
    for name in ["", "a", "ab", "abc", "abcd", "abcde"] {
        let tree = node("Thing", "Base", 0, vec![node("string", "m_Name", 0, vec![])]);
        let mut data = (name.len() as u32).to_le_bytes().to_vec();
        data.extend_from_slice(name.as_bytes());
        let mut positions = Vec::new();
        let end = visit(&tree, &data, 0, false, true, &mut positions).unwrap();
        assert_eq!(end % 4, 0);
        assert!(end >= 4 + name.len() as u64 && end < 8 + name.len() as u64);
    }
    for start in 0..9u64 {
        let flagged = node("UInt8", "m_Byte", 0x4000, vec![]);
        let mut positions = Vec::new();
        let end = visit(&flagged, &[0; 16], start, false, true, &mut positions).unwrap();
        assert_eq!(end % 4, 0);
        assert_eq!(end, (start + 1).next_multiple_of(4));
        let plain = node("UInt8", "m_Byte", 0, vec![]);
        assert_eq!(visit(&plain, &[0; 16], start, false, true, &mut positions).unwrap(), start + 1);
    }
}

fn family() -> SceneObjects {
    let local = |path_id: i64| Pptr { file_id: 0, path_id };
    let go = |name: &str, components: Vec<Pptr>| GameObject {
        components,
        layer: 0,
        name: name.to_owned(),
        tag: 0,
        is_active: true,
    };
    SceneObjects {
        transforms: vec![
            (2, Transform { game_object: local(1), children: vec![local(4)], father: local(0) }),
            (4, Transform { game_object: local(3), children: vec![local(6)], father: local(2) }),
            (6, Transform { game_object: local(5), children: vec![], father: local(4) }),
            (8, Transform { game_object: local(7), children: vec![], father: local(8) }),
        ],
        game_objects: vec![
            (1, go("root", vec![local(2)])),
            (3, go("branch", vec![local(90), local(4)])),
            (5, go("leaf", vec![local(6)])),
            (7, go("loop", vec![local(8)])),
            (9, go("bare", vec![local(91)])),
        ],
    }
}

#[test]
fn ancestors_are_listed_nearest_first() {
    let scene = family();
    let up: Vec<i64> = ancestors(&scene, 2).unwrap().iter().map(|f| f.path_id).collect();
    assert_eq!(up, vec![4, 2]);
    assert!(ancestors(&scene, 0).unwrap().is_empty());
    assert_eq!(ancestors(&scene, 3).err(), Some(RepackError::Internal));
}

#[test]
fn game_objects_are_named_by_their_place_in_the_hierarchy() {
    let scene = family();
    assert_eq!(transform_of(&scene, 1), Some(1));
    assert_eq!(transform_of(&scene, 4), None);
    assert_eq!(game_object_path(&scene, 2).unwrap(), "root/branch/leaf");
    assert_eq!(game_object_path(&scene, 1).unwrap(), "root/branch");
    assert_eq!(game_object_path(&scene, 0).unwrap(), "root");
    assert_eq!(game_object_path(&scene, 4).err(), Some(RepackError::MissingObject(9)));
    assert_eq!(game_object_path(&scene, 3).err(), Some(RepackError::Internal));
}
