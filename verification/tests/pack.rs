use rustc_hash::FxHashMap;
use std::collections::BTreeSet;
use unity_scene_repacker::error::RepackError;
use unity_scene_repacker::pptr::Pptr;
use unity_scene_repacker::prune::KeptRoot;
use unity_scene_repacker::repack::{
    asset_bundle_object, scene_bundle_object, scene_preload_data, shallow_bundle_object,
    BUNDLE_PATH_ID,
};
use unity_scene_repacker::repack::{
    assembly_file_name, create_shallow_assetbundle, deduplicate_objects, is_extra_found,
    is_extra_wanted, pack_to_asset_bundle, pack_to_scene_bundle, prune_types, repack_scene,
    retain_objects, scene_file_name, scene_of_file, select_shallow, ExtraObject, RepackScene,
    RepackSettings, ShallowScene, Stats,
};
use unity_scene_repacker::serialized::{
    FileIdentifier, ObjectInfo, SerializedFile, SerializedType, CLASS_GAME_OBJECT, CLASS_TRANSFORM,
};
use unity_scene_repacker::typetree::TypeTreeNode;
use unity_scene_repacker::typetree_cache::TypeTreeCache;
use unity_scene_repacker::unity_types::{BuildSettings, GameObject, SceneObjects, Transform};
use unity_scene_repacker::walker::Endianness;

fn node(ty: &str, name: &str, children: Vec<TypeTreeNode>) -> TypeTreeNode {
    TypeTreeNode { ty: ty.to_owned(), name: name.to_owned(), level: 0, meta_flag: 0, children }
}

fn link_tree() -> TypeTreeNode {
    node(
        "Link",
        "Base",
        vec![node(
            "PPtr<Link>",
            "m_Next",
            vec![node("int", "m_FileID", vec![]), node("SInt64", "m_PathID", vec![])],
        )],
    )
}

fn ty(class_id: i32, tree: Option<TypeTreeNode>) -> SerializedType {
    SerializedType {
        class_id,
        is_stripped_type: false,
        script_type_index: -1,
        script_id: 0,
        old_type_hash: 0,
        type_tree: tree,
        class_name: None,
        name_space: None,
        asm_name: None,
        type_dependencies: vec![],
    }
}

fn object(path_id: i64, offset: i64, size: u32, type_id: i32, class_id: i32) -> ObjectInfo {
    ObjectInfo {
        path_id,
        offset,
        size,
        type_id,
        class_id,
        is_destroyed: None,
        script_type_index: None,
        stripped: None,
    }
}

fn link_bytes(file_id: i32, path_id: i64) -> Vec<u8> {
    let mut data = Vec::new();
    data.extend_from_slice(&file_id.to_le_bytes());
    data.extend_from_slice(&path_id.to_le_bytes());
    data
}

/// A file of `count` links and one stray object. Link `i` has the path id
/// `first + 10 * i` and points at the next link; the last points at nothing.
/// The stray object has the path id `first - 1` and a type of its own.
fn chain(first: i64, count: usize) -> (SerializedFile, Vec<u8>) {
    let mut data = Vec::new();
    let mut objects = Vec::new();
    objects.push(object(first - 1, 0, 0, 0, 999));
    for i in 0..count {
        let id = first + 10 * i as i64;
        let next = if i + 1 < count { id + 10 } else { 0 };
        objects.push(object(id, data.len() as i64, 12, 1, 1000));
        data.extend_from_slice(&link_bytes(0, next));
    }
    let file = SerializedFile {
        endianness: Endianness::Little,
        big_id_enabled: None,
        types: vec![ty(999, None), ty(1000, Some(link_tree()))],
        script_types: vec![],
        externals: vec![FileIdentifier::new("sharedassets0.assets".to_owned())],
        objects,
        ref_types: Some(0),
    };
    (file, data)
}

fn scene<'a>(name: &str, file: SerializedFile, data: &'a [u8], keep: &[i64], roots: Vec<KeptRoot>) -> RepackScene<'a> {
    RepackScene {
        original_name: "level0".to_owned(),
        scene_name: Some(name.to_owned()),
        serialized: file,
        serialized_data: data,
        keep_objects: keep.iter().copied().collect::<BTreeSet<_>>(),
        roots,
        replacements: FxHashMap::default(),
        monobehaviour_types: FxHashMap::default(),
    }
}

fn root(path: &str, game_object: i64) -> KeptRoot {
    KeptRoot {
        path: path.to_owned(),
        transform_id: game_object + 1,
        transform: 0,
        game_object: Pptr { file_id: 0, path_id: game_object },
    }
}

fn links(first: i64, count: usize) -> Vec<i64> {
    (0..count).map(|i| first + 10 * i as i64).collect()
}

#[test]
fn asset_bundle_of_two_scenes_numbers_the_objects_contiguously() {
    let (file_a, data_a) = chain(100, 10);
    let (file_b, data_b) = chain(100, 10);
    let scenes = vec![
        scene("Fungus1_12", file_a, &data_a, &links(100, 10), vec![root("Grass/Leaf", 110)]),
        scene("Town", file_b, &data_b, &links(100, 10), vec![root("Well", 190)]),
    ];
    let plan = pack_to_asset_bundle(&TypeTreeCache::new(), scenes, vec![]).unwrap();
    let objects = &plan.builder.objects;
    assert_eq!(objects.len(), 20);
    for (k, (info, bytes)) in objects.iter().enumerate() {
        assert_eq!(info.path_id, 2 + k as i64);
        assert_eq!(info.class_id, 1000);
        let next = if k % 10 == 9 { 0 } else { 3 + k as i64 };
        assert_eq!(bytes, &link_bytes(0, next));
        assert!((info.type_id as usize) < plan.builder.serialized.types.len());
    }
    assert_eq!(objects[0].0.type_id, 0);
    assert_eq!(objects[10].0.type_id, 1);
    assert_eq!(plan.builder.next_path_id, 22);
    assert_eq!(plan.builder.serialized.types.len(), 2);
    assert_eq!(plan.builder.serialized.types[0].class_id, 1000);
    assert_eq!(plan.builder.serialized.externals.len(), 2);
    let entries: Vec<(&str, i32, i64)> =
        plan.container.iter().map(|(k, v)| (k.as_str(), v.asset.file_id, v.asset.path_id)).collect();
    assert_eq!(entries, vec![("fungus1_12/grass/leaf.prefab", 0, 3), ("town/well.prefab", 0, 21)]);
    assert_eq!(plan.stats.objects_before, 22);
    assert_eq!(plan.stats.objects_after, 20);
    assert_eq!(plan.stats.size_before, 240);
    assert_eq!(plan.stats.size_after, 0);
}

#[test]
fn asset_bundle_remaps_externals_and_enters_extra_objects() {
    let (mut file, mut data) = chain(100, 1);
    data[0] = 1;
    data[4] = 77;
    file.externals.push(FileIdentifier::new("resources.assets".to_owned()));
    let extras: Vec<ExtraObject> =
        vec![("level3".to_owned(), 42, "FXTag".to_owned(), "[FX] Attack".to_owned())];
    let scenes = vec![scene("A", file, &data, &[100], vec![])];
    let plan = pack_to_asset_bundle(&TypeTreeCache::new(), scenes, extras).unwrap();
    assert_eq!(plan.builder.objects.len(), 1);
    assert_eq!(plan.builder.objects[0].1, link_bytes(2, 77));
    let names: Vec<&str> =
        plan.builder.serialized.externals.iter().map(|e| e.path_name.as_str()).collect();
    assert_eq!(names, vec!["level3", "sharedassets0.assets", "resources.assets"]);
    let entries: Vec<(&str, i32, i64)> =
        plan.container.iter().map(|(k, v)| (k.as_str(), v.asset.file_id, v.asset.path_id)).collect();
    assert_eq!(entries, vec![("extraobjects/fxtag/[fx] attack.prefab", 1, 42)]);
}

#[test]
fn asset_bundle_uses_the_override_of_an_object() {
    let (file, data) = chain(100, 2);
    let mut s = scene("A", file, &data, &[100, 110], vec![]);
    s.replacements.insert(100, link_bytes(0, 100));
    let plan = pack_to_asset_bundle(&TypeTreeCache::new(), vec![s], vec![]).unwrap();
    assert_eq!(plan.builder.objects[0].1, link_bytes(0, 2));
    assert_eq!(plan.builder.objects[1].1, link_bytes(0, 0));
}

#[test]
fn asset_bundle_of_nothing_is_empty() {
    let plan = pack_to_asset_bundle(&TypeTreeCache::new(), vec![], vec![]).unwrap();
    assert!(plan.builder.objects.is_empty());
    assert!(plan.container.is_empty());
    assert_eq!(plan.builder.next_path_id, 2);
}

#[test]
fn asset_bundle_refuses_what_it_cannot_merge() {
    let cache = TypeTreeCache::new();
    let (mut file, data) = chain(100, 1);
    file.big_id_enabled = Some(1);
    let r = pack_to_asset_bundle(&cache, vec![scene("A", file, &data, &[100], vec![])], vec![]);
    assert_eq!(r.err(), Some(RepackError::UnsupportedFeature));
    let (mut file, data) = chain(100, 1);
    file.ref_types = None;
    let r = pack_to_asset_bundle(&cache, vec![scene("A", file, &data, &[100], vec![])], vec![]);
    assert_eq!(r.err(), Some(RepackError::UnsupportedFeature));
    let (mut file, data) = chain(100, 1);
    file.objects[0].type_id = 5;
    let r = pack_to_asset_bundle(&cache, vec![scene("A", file, &data, &[100], vec![])], vec![]);
    assert_eq!(r.err(), Some(RepackError::Parse));
    let (file, data) = chain(100, 1);
    let mut far = root("x", 100);
    far.game_object.file_id = 1;
    let r = pack_to_asset_bundle(&cache, vec![scene("A", file, &data, &[100], vec![far])], vec![]);
    assert_eq!(r.err(), Some(RepackError::Internal));
    let (file, data) = chain(100, 1);
    let mut nameless = scene("A", file, &data, &[100], vec![root("x", 100)]);
    nameless.scene_name = None;
    let r = pack_to_asset_bundle(&cache, vec![nameless], vec![]);
    assert_eq!(r.err(), Some(RepackError::Internal));
    let (mut file, data) = chain(100, 1);
    file.types[1].type_tree = None;
    let r = pack_to_asset_bundle(&cache, vec![scene("A", file, &data, &[100], vec![])], vec![]);
    assert_eq!(r.err(), Some(RepackError::MissingType(1000)));
}

#[test]
fn scene_bundle_trims_each_scene_without_remapping() {
    let (file_a, data_a) = chain(100, 3);
    let (file_b, data_b) = chain(500, 2);
    let mut first = scene("Fungus1_12", file_a, &data_a, &[100, 120], vec![]);
    first.replacements.insert(120, vec![9, 9]);
    let second = scene("Town", file_b, &data_b, &[499], vec![]);
    let plan = pack_to_scene_bundle("mybundle", vec![first, second]).unwrap();
    let names: Vec<&str> = plan.container.keys().map(|k| k.as_str()).collect();
    assert_eq!(
        names,
        vec!["unity-scene-repacker/mybundle_Fungus1_12.unity", "unity-scene-repacker/mybundle_Town.unity"]
    );
    assert!(plan.container.values().all(|v| v.asset.file_id == 0 && v.asset.path_id == 0));
    assert_eq!(plan.scenes.len(), 2);
    let a = &plan.scenes[0];
    assert_eq!(a.name, "BuildPlayer-mybundle_Fungus1_12");
    assert_eq!(a.shared_assets_name, "BuildPlayer-mybundle_Fungus1_12.sharedAssets");
    assert!(a.holds_bundle);
    assert_eq!(a.serialized.types.len(), 1);
    assert_eq!(a.serialized.types[0].class_id, 1000);
    assert_eq!(a.objects.len(), 2);
    assert_eq!((a.objects[0].0.path_id, a.objects[0].0.type_id), (100, 0));
    assert_eq!(a.objects[0].1, link_bytes(0, 110));
    assert_eq!(a.objects[1].0.path_id, 120);
    assert_eq!(a.objects[1].1, vec![9, 9]);
    let b = &plan.scenes[1];
    assert_eq!(b.name, "BuildPlayer-mybundle_Town");
    assert!(!b.holds_bundle);
    assert_eq!(b.serialized.types.len(), 1);
    assert_eq!(b.serialized.types[0].class_id, 999);
    assert_eq!(b.objects.len(), 1);
    assert_eq!((b.objects[0].0.path_id, b.objects[0].0.type_id), (499, 0));
    assert!(b.objects[0].1.is_empty());
    assert_eq!(b.serialized.externals.len(), 1);
    assert_eq!(plan.stats.objects_before, 7);
    assert_eq!(plan.stats.objects_after, 3);
    assert_eq!(plan.stats.size_before, 60);
    assert_eq!(plan.stats.size_after, 0);
}

#[test]
fn scene_bundle_refuses_a_scene_without_a_name() {
    let (file, data) = chain(100, 1);
    let mut nameless = scene("A", file, &data, &[100], vec![]);
    nameless.scene_name = None;
    assert_eq!(pack_to_scene_bundle("b", vec![nameless]).err(), Some(RepackError::Internal));
    let (mut file, data) = chain(100, 1);
    file.objects[1].offset = 4;
    let r = pack_to_scene_bundle("b", vec![scene("A", file, &data, &[100], vec![])]);
    assert_eq!(r.err(), Some(RepackError::Parse));
}

#[test]
fn objects_are_retained_by_the_keep_set() {
    let (file, _) = chain(100, 4);
    let keep: BTreeSet<i64> = [130, 99, 110, 7].into_iter().collect();
    let kept: Vec<i64> = retain_objects(&file.objects, &keep).iter().map(|o| o.path_id).collect();
    assert_eq!(kept, vec![99, 110, 130]);
}

#[test]
fn types_without_objects_are_dropped() {
    let (mut file, _) = chain(100, 2);
    file.objects.remove(0);
    let remap = prune_types(&mut file);
    assert_eq!(file.types.len(), 1);
    assert_eq!(file.types[0].class_id, 1000);
    assert_eq!(remap.len(), 1);
    assert_eq!(remap[&1], 0);
    assert_eq!(file.objects.len(), 2);
}

#[test]
fn repeated_paths_are_removed() {
    let paths: Vec<String> = ["a", "b", "a", "c", "b", "a"].iter().map(|s| s.to_string()).collect();
    let (set, duplicates) = deduplicate_objects(&paths);
    assert_eq!(set.iter().map(|s| s.as_str()).collect::<Vec<_>>(), vec!["a", "b", "c"]);
    assert_eq!(duplicates, vec!["a", "b", "a"]);
}

#[test]
fn shallow_bundle_points_into_the_files_of_the_game() {
    let scenes = vec![ShallowScene {
        scene_name: "Fungus1_12".to_owned(),
        file_name: "level7".to_owned(),
        objects: vec![("simple_grass".to_owned(), 4711)],
    }];
    let plan = create_shallow_assetbundle(&scenes, &vec![]).unwrap();
    assert_eq!(plan.externals.len(), 1);
    assert_eq!(plan.externals[0].path_name, "level7");
    assert_eq!(plan.container.len(), 1);
    let (name, info) = plan.container.get_index(0).unwrap();
    assert_eq!(name, "fungus1_12/simple_grass.prefab");
    assert_eq!(info.asset, Pptr { file_id: 1, path_id: 4711 });
    assert_eq!((info.preload_index, info.preload_size), (0, 0));
}

#[test]
fn shallow_bundle_enters_extras_first_and_overwrites_equal_names() {
    let scenes = vec![
        ShallowScene {
            scene_name: "A".to_owned(),
            file_name: "level0".to_owned(),
            objects: vec![("x".to_owned(), 1), ("Y".to_owned(), 2)],
        },
        ShallowScene {
            scene_name: "a".to_owned(),
            file_name: "level1".to_owned(),
            objects: vec![("X".to_owned(), 3)],
        },
    ];
    let extras: Vec<ExtraObject> =
        vec![("resources.assets".to_owned(), 9, "Cls".to_owned(), "Obj".to_owned())];
    let plan = create_shallow_assetbundle(&scenes, &extras).unwrap();
    let names: Vec<&str> = plan.externals.iter().map(|e| e.path_name.as_str()).collect();
    assert_eq!(names, vec!["resources.assets", "level0", "level1"]);
    let entries: Vec<(&str, i32, i64)> =
        plan.container.iter().map(|(k, v)| (k.as_str(), v.asset.file_id, v.asset.path_id)).collect();
    assert_eq!(
        entries,
        vec![("extraobjects/cls/obj.prefab", 1, 9), ("a/x.prefab", 3, 3), ("a/y.prefab", 2, 2)]
    );
}

fn small_scene() -> SceneObjects {
    SceneObjects {
        transforms: vec![
            (2, Transform {
                game_object: Pptr { file_id: 0, path_id: 1 },
                children: vec![Pptr { file_id: 0, path_id: 4 }],
                father: Pptr { file_id: 0, path_id: 0 },
            }),
            (4, Transform {
                game_object: Pptr { file_id: 0, path_id: 3 },
                children: vec![],
                father: Pptr { file_id: 0, path_id: 2 },
            }),
        ],
        game_objects: vec![
            (1, GameObject { components: vec![], layer: 0, name: "root".to_owned(), tag: 0, is_active: true }),
            (3, GameObject { components: vec![], layer: 0, name: "kid".to_owned(), tag: 0, is_active: true }),
        ],
    }
}

#[test]
fn shallow_selection_names_the_game_objects() {
    let scene = small_scene();
    let paths: Vec<String> =
        ["root/kid", "nothing", "root", "root/kid"].iter().map(|s| s.to_string()).collect();
    let chosen = select_shallow(&scene, &paths).unwrap();
    assert_eq!(chosen.objects, vec![("root/kid".to_owned(), 3), ("root".to_owned(), 1)]);
    assert_eq!(chosen.missing, vec!["nothing".to_owned()]);
    assert_eq!(chosen.duplicates, vec!["root/kid".to_owned()]);
}

#[test]
fn repacking_a_scene_prunes_it_to_the_paths_without_repetitions() {
    let scene = small_scene();
    let transform = node(
        "Transform",
        "Base",
        vec![node(
            "PPtr<GameObject>",
            "m_GameObject",
            vec![node("int", "m_FileID", vec![]), node("SInt64", "m_PathID", vec![])],
        )],
    );
    let go = node("GameObject", "Base", vec![node("int", "m_Layer", vec![])]);
    let mut data = Vec::new();
    data.extend_from_slice(&[0, 0, 0, 0]);
    data.extend_from_slice(&link_bytes(0, 1));
    data.extend_from_slice(&link_bytes(0, 3));
    let file = SerializedFile {
        endianness: Endianness::Little,
        big_id_enabled: None,
        types: vec![ty(CLASS_GAME_OBJECT, Some(go)), ty(CLASS_TRANSFORM, Some(transform.duplicate()))],
        script_types: vec![],
        externals: vec![],
        objects: vec![
            object(1, 0, 4, 0, CLASS_GAME_OBJECT),
            object(3, 0, 4, 0, CLASS_GAME_OBJECT),
            object(2, 4, 12, 1, CLASS_TRANSFORM),
            object(4, 16, 12, 1, CLASS_TRANSFORM),
        ],
        ref_types: Some(0),
    };
    let mut cache = TypeTreeCache::new();
    cache.insert(CLASS_TRANSFORM, Some(transform));
    let paths: Vec<String> = ["root/kid", "root/kid"].iter().map(|s| s.to_string()).collect();
    let done = repack_scene(&scene, &file, &data, &cache, &paths, true).unwrap();
    assert_eq!(done.duplicates, vec!["root/kid".to_owned()]);
    assert_eq!(done.pruned.roots.len(), 1);
    assert_eq!(done.pruned.keep_objects.iter().copied().collect::<Vec<_>>(), vec![1, 2, 3, 4]);
    assert_eq!(done.pruned.disabled, vec![3]);
}

#[test]
fn settings_without_selection_are_empty() {
    let empty = RepackSettings { scene_objects: vec![], extra_objects: vec![] };
    assert!(empty.is_empty());
    let some = RepackSettings {
        scene_objects: vec![],
        extra_objects: vec![("FXTag".to_owned(), vec!["x".to_owned()])],
    };
    assert!(!some.is_empty());
    let stats = Stats::default();
    assert_eq!(
        (stats.objects_before, stats.objects_after, stats.size_before, stats.size_after),
        (0, 0, 0, 0)
    );
}

#[test]
fn extra_objects_are_matched_by_class_and_name() {
    let wanted = vec![
        ("FXTag".to_owned(), vec!["one".to_owned(), "two".to_owned()]),
        ("Other".to_owned(), vec![]),
    ];
    assert!(is_extra_wanted(&wanted, "FXTag", "two"));
    assert!(!is_extra_wanted(&wanted, "FXTag", "three"));
    assert!(!is_extra_wanted(&wanted, "Other", "one"));
    assert!(!is_extra_wanted(&wanted, "fxtag", "one"));
    let found: Vec<ExtraObject> = vec![("level1".to_owned(), 5, "FXTag".to_owned(), "one".to_owned())];
    assert!(is_extra_found(&found, "FXTag", "one"));
    assert!(!is_extra_found(&found, "FXTag", "two"));
    assert!(!is_extra_found(&found, "one", "FXTag"));
}

#[test]
fn assemblies_are_named_by_their_files() {
    assert_eq!(assembly_file_name("Assembly-CSharp".to_owned()), "Assembly-CSharp.dll");
    assert_eq!(assembly_file_name("Assembly-CSharp.dll".to_owned()), "Assembly-CSharp.dll");
    assert_eq!(assembly_file_name("".to_owned()), ".dll");
}

#[test]
fn scenes_are_found_by_name_and_by_file() {
    let settings = BuildSettings {
        scenes: vec![
            "Assets/Scenes/Menu.unity".to_owned(),
            "Assets/Scenes/Fungus1_12.unity".to_owned(),
            "Assets/Other/Menu.unity".to_owned(),
        ],
    };
    assert_eq!(scene_file_name(&settings, "Fungus1_12"), Some("level1".to_owned()));
    assert_eq!(scene_file_name(&settings, "Menu"), Some("level2".to_owned()));
    assert_eq!(scene_file_name(&settings, "Nowhere"), None);
    assert_eq!(scene_of_file(3, "level2"), Some(2));
    assert_eq!(scene_of_file(3, "level3"), None);
    assert_eq!(scene_of_file(3, "globalgamemanagers"), None);
}

#[test]
fn objects_that_describe_bundles() {
    assert_eq!(BUNDLE_PATH_ID, 1);
    let preload = scene_preload_data();
    assert_eq!(preload.name, "");
    assert_eq!(preload.assets, vec![Pptr { file_id: 1, path_id: 10001 }]);
    assert!(preload.dependencies.is_empty());
    assert!(!preload.explicit_data_layout);
    let mut table = indexmap::IndexMap::new();
    table.insert("a.prefab".to_owned(), unity_scene_repacker::unity_types::AssetInfo::new(Pptr::local(2)));
    let scenes = scene_bundle_object("b", table.clone());
    assert_eq!((scenes.name.as_str(), scenes.asset_bundle_name.as_str()), ("b", ""));
    assert!(scenes.is_streamed_scene_asset_bundle);
    assert_eq!((scenes.runtime_compatibility, scenes.path_flags, scenes.explicit_data_layout), (1, 7, 0));
    assert_eq!(scenes.container.len(), 1);
    assert!(scenes.main_asset.asset.is_null());
    let assets = asset_bundle_object("b", table.clone());
    assert_eq!((assets.name.as_str(), assets.asset_bundle_name.as_str()), ("b", "b"));
    assert!(!assets.is_streamed_scene_asset_bundle);
    assert_eq!((assets.runtime_compatibility, assets.path_flags), (1, 7));
    assert!(assets.preload_table.is_empty() && assets.dependencies.is_empty());
    let shallow = shallow_bundle_object("b", table);
    assert_eq!((shallow.name.as_str(), shallow.asset_bundle_name.as_str()), ("b", ""));
    assert!(!shallow.is_streamed_scene_asset_bundle);
    assert_eq!(shallow.container.get_index(0).map(|(k, v)| (k.as_str(), v.asset.path_id)), Some(("a.prefab", 2)));
}
