use std::collections::VecDeque;
use unity_scene_repacker::error::RepackError;
use unity_scene_repacker::pptr::Pptr;
use unity_scene_repacker::prune::prune_scene;
use unity_scene_repacker::reachable::{index_objects, reachable, reachable_one};
use unity_scene_repacker::scene_lookup::{split_path, SceneLookup};
use unity_scene_repacker::serialized::{
    ObjectInfo, SerializedFile, SerializedType, CLASS_GAME_OBJECT, CLASS_RENDER_SETTINGS,
    CLASS_TRANSFORM,
};
use unity_scene_repacker::typetree::TypeTreeNode;
use unity_scene_repacker::typetree_cache::TypeTreeCache;
use unity_scene_repacker::unity_types::{GameObject, SceneObjects, Transform};
use unity_scene_repacker::walker::Endianness;

fn node(ty: &str, name: &str, meta_flag: i32, children: Vec<TypeTreeNode>) -> TypeTreeNode {
    TypeTreeNode { ty: ty.to_owned(), name: name.to_owned(), level: 0, meta_flag, children }
}

fn leaf(ty: &str, name: &str) -> TypeTreeNode {
    node(ty, name, 0, vec![])
}

fn pptr_node(ty: &str, name: &str) -> TypeTreeNode {
    node(ty, name, 0, vec![leaf("int", "m_FileID"), leaf("SInt64", "m_PathID")])
}

fn array_of(name: &str, item: TypeTreeNode) -> TypeTreeNode {
    node("vector", name, 0, vec![node("Array", "Array", 0, vec![leaf("int", "size"), item])])
}

fn transform_tree() -> TypeTreeNode {
    node(
        "Transform",
        "Base",
        0,
        vec![
            pptr_node("PPtr<GameObject>", "m_GameObject"),
            array_of("m_Children", pptr_node("PPtr<Transform>", "data")),
            pptr_node("PPtr<Transform>", "m_Father"),
        ],
    )
}

fn game_object_tree() -> TypeTreeNode {
    node(
        "GameObject",
        "Base",
        0,
        vec![
            array_of(
                "m_Component",
                node("ComponentPair", "data", 0, vec![pptr_node("PPtr<Component>", "component")]),
            ),
            leaf("string", "m_Name"),
            leaf("bool", "m_IsActive"),
        ],
    )
}

fn filter_tree() -> TypeTreeNode {
    node("MeshFilter", "Base", 0, vec![pptr_node("PPtr<Mesh>", "m_Mesh")])
}

fn settings_tree() -> TypeTreeNode {
    node("RenderSettings", "Base", 0, vec![leaf("int", "m_Fog")])
}

fn simple_type(class_id: i32, tree: Option<TypeTreeNode>) -> SerializedType {
    SerializedType {
        class_id,
        is_stripped_type: false,
        script_type_index: -1,
        script_id: 0,
        old_type_hash: 0,
        type_tree: tree,
        class_name: None,
        name_space: None,
        asm_name: None,
        type_dependencies: vec![],
    }
}

fn put_pptr(data: &mut Vec<u8>, p: Pptr) {
    data.extend_from_slice(&p.file_id.to_le_bytes());
    data.extend_from_slice(&p.path_id.to_le_bytes());
}

fn transform_bytes(t: &Transform) -> Vec<u8> {
    let mut data = Vec::new();
    put_pptr(&mut data, t.game_object);
    data.extend_from_slice(&(t.children.len() as u32).to_le_bytes());
    for child in &t.children {
        put_pptr(&mut data, *child);
    }
    put_pptr(&mut data, t.father);
    data
}

fn game_object_bytes(go: &GameObject) -> Vec<u8> {
    let mut data = Vec::new();
    data.extend_from_slice(&(go.components.len() as u32).to_le_bytes());
    for component in &go.components {
        put_pptr(&mut data, *component);
    }
    data.extend_from_slice(&(go.name.len() as u32).to_le_bytes());
    data.extend_from_slice(go.name.as_bytes());
    while data.len() % 4 != 0 {
        data.push(0);
    }
    data.push(go.is_active as u8);
    data
}

struct Scene {
    objects: SceneObjects,
    file: SerializedFile,
    data: Vec<u8>,
}

fn local(path_id: i64) -> Pptr {
    Pptr { file_id: 0, path_id }
}

fn null() -> Pptr {
    Pptr { file_id: 0, path_id: 0 }
}

fn add(file: &mut SerializedFile, data: &mut Vec<u8>, path_id: i64, type_id: i32, class_id: i32, bytes: &[u8]) {
    while data.len() % 8 != 0 {
        data.push(0xee);
    }
    file.objects.push(ObjectInfo {
        path_id,
        offset: data.len() as i64,
        size: bytes.len() as u32,
        type_id,
        class_id,
        is_destroyed: None,
        script_type_index: None,
        stripped: None,
    });
    data.extend_from_slice(bytes);
}

fn game_object(name: &str, components: Vec<Pptr>) -> GameObject {
    GameObject { components, layer: 0, name: name.to_owned(), tag: 0, is_active: true }
}

/// A scene with the root `simple_grass` (game object 1, transform 2) and
/// its children `leaf_a` (3, 4) and `leaf_b` (5, 6). `leaf_a` has a mesh
/// filter (8) that points into another file. The render settings are 7.
fn fungus() -> Scene {
    let transforms = vec![
        (2, Transform { game_object: local(1), children: vec![local(4), local(6)], father: null() }),
        (4, Transform { game_object: local(3), children: vec![], father: local(2) }),
        (6, Transform { game_object: local(5), children: vec![], father: local(2) }),
    ];
    let game_objects = vec![
        (1, game_object("simple_grass", vec![local(2)])),
        (3, game_object("leaf_a", vec![local(4), local(8)])),
        (5, game_object("leaf_b", vec![local(6)])),
    ];
    let mut file = SerializedFile {
        endianness: Endianness::Little,
        big_id_enabled: None,
        types: vec![
            simple_type(CLASS_GAME_OBJECT, Some(game_object_tree())),
            simple_type(CLASS_TRANSFORM, None),
            simple_type(CLASS_RENDER_SETTINGS, Some(settings_tree())),
            simple_type(33, Some(filter_tree())),
        ],
        script_types: vec![],
        externals: vec![],
        objects: vec![],
        ref_types: Some(0),
    };
    let mut data = vec![0xeeu8; 16];
    for (id, go) in &game_objects {
        add(&mut file, &mut data, *id, 0, CLASS_GAME_OBJECT, &game_object_bytes(go));
    }
    for (id, t) in &transforms {
        add(&mut file, &mut data, *id, 1, CLASS_TRANSFORM, &transform_bytes(t));
    }
    add(&mut file, &mut data, 7, 2, CLASS_RENDER_SETTINGS, &[1, 0, 0, 0]);
    let mut filter = Vec::new();
    put_pptr(&mut filter, Pptr { file_id: 1, path_id: 4300 });
    add(&mut file, &mut data, 8, 3, 33, &filter);
    Scene { objects: SceneObjects { transforms, game_objects }, file, data }
}

fn cache() -> TypeTreeCache {
    let mut cache = TypeTreeCache::new();
    cache.insert(CLASS_TRANSFORM, Some(transform_tree()));
    cache
}

fn paths(list: &[&str]) -> Vec<String> {
    list.iter().map(|s| s.to_string()).collect()
}

#[test]
fn path_is_split_at_its_slashes() {
    assert_eq!(split_path("a/b/c"), vec!["a", "b", "c"]);
    assert_eq!(split_path("simple_grass"), vec!["simple_grass"]);
    assert_eq!(split_path(""), vec![""]);
    assert_eq!(split_path("a//b/"), vec!["a", "", "b", ""]);
    assert_eq!(split_path("/x"), vec!["", "x"]);
}

#[test]
fn lookup_finds_roots_and_children() {
    let scene = fungus();
    let lookup = SceneLookup::new(&scene.objects).unwrap();
    assert_eq!(lookup.roots.len(), 1);
    let root = lookup.lookup_path("simple_grass").unwrap().unwrap();
    assert_eq!((root.path_id, root.transform), (2, 0));
    let leaf = lookup.lookup_path("simple_grass/leaf_b").unwrap().unwrap();
    assert_eq!((leaf.path_id, leaf.transform), (6, 2));
    assert!(lookup.lookup_path("notreal/child").unwrap().is_none());
    assert!(lookup.lookup_path("simple_grass/leaf_c").unwrap().is_none());
    assert!(lookup.lookup_path("simple_grass/leaf_a/deeper").unwrap().is_none());
    assert!(lookup.lookup_path("leaf_a").unwrap().is_none());
    assert!(lookup.lookup_path("").unwrap().is_none());
}

#[test]
fn lookup_takes_the_first_root_and_the_last_child_of_a_name() {
    let objects = SceneObjects {
        transforms: vec![
            (10, Transform { game_object: local(1), children: vec![local(30), local(40)], father: null() }),
            (20, Transform { game_object: local(2), children: vec![], father: null() }),
            (30, Transform { game_object: local(3), children: vec![], father: local(10) }),
            (40, Transform { game_object: local(4), children: vec![], father: local(10) }),
        ],
        game_objects: vec![
            (1, game_object("root", vec![])),
            (2, game_object("root", vec![])),
            (3, game_object("twin", vec![])),
            (4, game_object("twin", vec![])),
        ],
    };
    let lookup = SceneLookup::new(&objects).unwrap();
    assert_eq!(lookup.roots.len(), 1);
    assert_eq!(lookup.lookup_path("root").unwrap().unwrap().path_id, 10);
    let twins = lookup.lookup_candidates("root/twin").unwrap();
    assert_eq!(twins.len(), 2);
    assert_eq!(twins[0].path_id, 30);
    assert_eq!(lookup.lookup_path("root/twin").unwrap().unwrap().path_id, 40);
}

#[test]
fn lookup_fails_where_an_object_is_absent() {
    let objects = SceneObjects {
        transforms: vec![(10, Transform { game_object: local(1), children: vec![], father: null() })],
        game_objects: vec![],
    };
    assert_eq!(SceneLookup::new(&objects).err(), Some(RepackError::MissingObject(1)));
    let objects = SceneObjects {
        transforms: vec![(10, Transform { game_object: local(1), children: vec![local(99)], father: null() })],
        game_objects: vec![(1, game_object("root", vec![]))],
    };
    let lookup = SceneLookup::new(&objects).unwrap();
    assert_eq!(lookup.lookup_path("root/x").err(), Some(RepackError::MissingObject(99)));
    assert!(lookup.lookup_path("root").unwrap().is_some());
}

#[test]
fn scan_of_one_object_lists_its_pointers() {
    let scene = fungus();
    let index = index_objects(&scene.file.objects);
    let found = reachable_one(&scene.file, &index, &scene.data, &cache(), 3).unwrap();
    assert_eq!(found, vec![local(4), local(8)]);
    let found = reachable_one(&scene.file, &index, &scene.data, &cache(), 2).unwrap();
    assert_eq!(found, vec![local(1), local(4), local(6)]);
    let found = reachable_one(&scene.file, &index, &scene.data, &cache(), 4).unwrap();
    assert_eq!(found, vec![local(3)]);
    assert_eq!(
        reachable_one(&scene.file, &index, &scene.data, &cache(), 99).err(),
        Some(RepackError::MissingObject(99))
    );
    assert_eq!(
        reachable_one(&scene.file, &index, &scene.data, &TypeTreeCache::new(), 4).err(),
        Some(RepackError::MissingType(CLASS_TRANSFORM))
    );
}

#[test]
fn reachable_follows_local_pointers_downwards() {
    let scene = fungus();
    let seen = reachable(&scene.file, &scene.data, &cache(), VecDeque::from(vec![4])).unwrap();
    assert_eq!(seen.into_iter().collect::<Vec<_>>(), vec![3, 4, 8]);
    let seen = reachable(&scene.file, &scene.data, &cache(), VecDeque::from(vec![2, 2])).unwrap();
    assert_eq!(seen.into_iter().collect::<Vec<_>>(), vec![1, 2, 3, 4, 5, 6, 8]);
    let seen = reachable(&scene.file, &scene.data, &cache(), VecDeque::new()).unwrap();
    assert!(seen.is_empty());
}

#[test]
fn reachable_fails_on_a_dangling_pointer() {
    let mut scene = fungus();
    scene.file.objects.retain(|o| o.path_id != 8);
    let r = reachable(&scene.file, &scene.data, &cache(), VecDeque::from(vec![4]));
    assert_eq!(r.err(), Some(RepackError::MissingObject(8)));
    let r = reachable(&scene.file, &scene.data, &cache(), VecDeque::from(vec![77]));
    assert_eq!(r.err(), Some(RepackError::MissingObject(77)));
}

#[test]
fn reachable_fails_where_an_object_lies_outside_the_bytes() {
    let scene = fungus();
    let short = &scene.data[..scene.data.len() - 4];
    let r = reachable(&scene.file, short, &cache(), VecDeque::from(vec![4]));
    assert_eq!(r.err(), Some(RepackError::Parse));
}

#[test]
fn pruning_keeps_the_selection_its_ancestors_and_the_render_settings() {
    let scene = fungus();
    let pruned = prune_scene(
        &scene.objects,
        &scene.file,
        &scene.data,
        &cache(),
        &paths(&["simple_grass/leaf_a"]),
        false,
    )
    .unwrap();
    assert_eq!(pruned.keep_objects.iter().copied().collect::<Vec<_>>(), vec![1, 2, 3, 4, 7, 8]);
    assert_eq!(pruned.roots.len(), 1);
    assert_eq!(pruned.roots[0].path, "simple_grass/leaf_a");
    assert_eq!(pruned.roots[0].transform_id, 4);
    assert_eq!(pruned.roots[0].game_object, local(3));
    assert!(pruned.missing.is_empty());
    assert_eq!(pruned.ancestors.len(), 1);
    assert_eq!(pruned.ancestors[0].path_id, 2);
    assert_eq!(pruned.ancestors[0].children, vec![local(4)]);
    assert_eq!(pruned.ancestors[0].game_object, local(1));
    assert_eq!(pruned.ancestors[0].father, null());
    assert!(pruned.disabled.is_empty());
}

#[test]
fn pruning_a_root_keeps_all_below_it_and_adjusts_nothing() {
    let scene = fungus();
    let pruned = prune_scene(
        &scene.objects,
        &scene.file,
        &scene.data,
        &cache(),
        &paths(&["simple_grass"]),
        false,
    )
    .unwrap();
    assert_eq!(pruned.keep_objects.iter().copied().collect::<Vec<_>>(), vec![1, 2, 3, 4, 5, 6, 7, 8]);
    assert!(pruned.ancestors.is_empty());
}

#[test]
fn pruning_two_siblings_adjusts_their_father_once() {
    let scene = fungus();
    let pruned = prune_scene(
        &scene.objects,
        &scene.file,
        &scene.data,
        &cache(),
        &paths(&["simple_grass/leaf_b", "simple_grass/leaf_a"]),
        false,
    )
    .unwrap();
    assert_eq!(pruned.keep_objects.iter().copied().collect::<Vec<_>>(), vec![1, 2, 3, 4, 5, 6, 7, 8]);
    assert_eq!(pruned.roots.len(), 2);
    assert_eq!(pruned.roots[0].transform_id, 6);
    assert_eq!(pruned.ancestors.len(), 1);
    assert_eq!(pruned.ancestors[0].children, vec![local(4), local(6)]);
}

#[test]
fn pruning_reports_a_path_that_leads_to_nothing() {
    let scene = fungus();
    let pruned = prune_scene(
        &scene.objects,
        &scene.file,
        &scene.data,
        &cache(),
        &paths(&["notreal/child"]),
        false,
    )
    .unwrap();
    assert_eq!(pruned.missing, vec!["notreal/child".to_owned()]);
    assert!(pruned.roots.is_empty());
    assert!(pruned.ancestors.is_empty());
    assert_eq!(pruned.keep_objects.iter().copied().collect::<Vec<_>>(), vec![7]);
}

#[test]
fn pruning_names_the_roots_that_start_out_inactive() {
    let scene = fungus();
    let pruned = prune_scene(
        &scene.objects,
        &scene.file,
        &scene.data,
        &cache(),
        &paths(&["simple_grass/leaf_a"]),
        true,
    )
    .unwrap();
    assert_eq!(pruned.disabled, vec![3]);
    assert_eq!(pruned.ancestors.len(), 1);
}

#[test]
fn pruning_needs_the_type_tree_of_transforms() {
    let mut scene = fungus();
    scene.file.types[1].type_tree = Some(transform_tree());
    let r = prune_scene(
        &scene.objects,
        &scene.file,
        &scene.data,
        &TypeTreeCache::new(),
        &paths(&["simple_grass/leaf_a"]),
        false,
    );
    assert_eq!(r.err(), Some(RepackError::MissingType(CLASS_TRANSFORM)));
}

#[test]
fn pruning_fails_where_an_ancestor_is_absent() {
    let mut scene = fungus();
    scene.objects.transforms[1].1.father = local(500);
    let r = prune_scene(
        &scene.objects,
        &scene.file,
        &scene.data,
        &cache(),
        &paths(&["simple_grass/leaf_a"]),
        false,
    );
    assert_eq!(r.err(), Some(RepackError::MissingObject(500)));
}
