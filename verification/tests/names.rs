use unity_scene_repacker::cli::{Compression, Mode};
use unity_scene_repacker::container::path_set_to_vec;
use unity_scene_repacker::env::{is_serialized_file, level_files, resource_fallback, serialized_files};
use unity_scene_repacker::error::RepackError;
use unity_scene_repacker::naming::{
    get_asset_bundle_object_asset_name, get_build_player_name, get_cab_name,
    get_extra_object_asset_name, get_scene_bundle_scene_name, get_shared_assets_name,
    level_file_name, level_index, lookup_miss_message, parse_index, scene_name_display, to_decimal,
};
use unity_scene_repacker::paths::{extension, file_name, file_stem, find_last};
use unity_scene_repacker::pptr::Pptr;
use unity_scene_repacker::unity_types::{AssetInfo, BuildSettings, MonoScript};
use unity_scene_repacker::walker::WalkError;

#[test]
fn names_of_container_entries() {
    assert_eq!(
        get_scene_bundle_scene_name("mybundle", "Fungus1_12"),
        "unity-scene-repacker/mybundle_Fungus1_12.unity"
    );
    assert_eq!(
        get_asset_bundle_object_asset_name("Fungus1_12", "simple_grass/Leaf_A"),
        "fungus1_12/simple_grass/leaf_a.prefab"
    );
    assert_eq!(
        get_extra_object_asset_name("FXDealerMaterialTag", "[FXDealer] 0_YeeAttack"),
        "extraobjects/fxdealermaterialtag/[fxdealer] 0_yeeattack.prefab"
    );
    assert_eq!(get_asset_bundle_object_asset_name("ÄB", "Ö"), "äb/ö.prefab");
    assert_eq!(get_asset_bundle_object_asset_name("", ""), "/.prefab");
}

#[test]
fn names_of_bundle_entries() {
    assert_eq!(get_build_player_name("b", "Town"), "BuildPlayer-b_Town");
    assert_eq!(get_shared_assets_name("b", "Town"), "BuildPlayer-b_Town.sharedAssets");
    assert_eq!(get_cab_name("b"), "CAB-b");
}

#[test]
fn path_that_leads_to_nothing_is_reported() {
    assert_eq!(
        lookup_miss_message("notreal/child", "Fungus1_12"),
        "Could not find path 'notreal/child' in Fungus1_12"
    );
}

#[test]
fn scenes_are_named_in_messages() {
    assert_eq!(scene_name_display(Some("Town"), "level3"), "Town (level3'");
    assert_eq!(scene_name_display(None, "level3"), "'level3'");
}

#[test]
fn numbers_are_written_in_decimal() {
    assert_eq!(to_decimal(0), "0");
    assert_eq!(to_decimal(7), "7");
    assert_eq!(to_decimal(10), "10");
    assert_eq!(to_decimal(4096), "4096");
    assert_eq!(to_decimal(usize::MAX), usize::MAX.to_string());
    assert_eq!(level_file_name(12), "level12");
}

#[test]
fn numbers_are_read_from_decimal() {
    assert_eq!(parse_index("0"), Some(0));
    assert_eq!(parse_index("12"), Some(12));
    assert_eq!(parse_index("007"), Some(7));
    assert_eq!(parse_index("+5"), Some(5));
    assert_eq!(parse_index(""), None);
    assert_eq!(parse_index("+"), None);
    assert_eq!(parse_index("-1"), None);
    assert_eq!(parse_index("1a"), None);
    assert_eq!(parse_index(" 1"), None);
    assert_eq!(parse_index("++1"), None);
    assert_eq!(parse_index("١"), None);
    assert_eq!(parse_index(&usize::MAX.to_string()), Some(usize::MAX));
    assert_eq!(parse_index("18446744073709551616"), None);
    assert_eq!(parse_index("99999999999999999999999"), None);
}

#[test]
fn levels_are_recognised_by_their_names() {
    assert_eq!(level_index("level0"), Some(0));
    assert_eq!(level_index("level37"), Some(37));
    assert_eq!(level_index("level"), None);
    assert_eq!(level_index("level3.resS"), None);
    assert_eq!(level_index("Level3"), None);
    assert_eq!(level_index("mylevel3"), None);
    assert_eq!(level_index("lev"), None);
}

#[test]
fn parts_of_paths() {
    assert_eq!(find_last("a/b/c", '/'), Some(3));
    assert_eq!(find_last("abc", '/'), None);
    assert_eq!(find_last("", '/'), None);
    assert_eq!(file_name("Assets/Scenes/Town.unity"), "Town.unity");
    assert_eq!(file_name("Town.unity"), "Town.unity");
    assert_eq!(file_name("dir/"), "");
    assert_eq!(file_stem("Town.unity"), "Town");
    assert_eq!(file_stem("archive.tar.gz"), "archive.tar");
    assert_eq!(file_stem("Town"), "Town");
    assert_eq!(file_stem(".hidden"), ".hidden");
    assert_eq!(file_stem("name."), "name");
    assert_eq!(extension("sharedassets0.assets"), Some("assets"));
    assert_eq!(extension("level0"), None);
    assert_eq!(extension(".assets"), None);
    assert_eq!(extension("a.b.assets"), Some("assets"));
    assert_eq!(extension("name."), Some(""));
}

#[test]
fn scene_names_are_the_stems_of_the_scene_paths() {
    let settings = BuildSettings {
        scenes: vec![
            "Assets/Scenes/Menu.unity".to_owned(),
            "Assets/Scenes/Fungus1_12.unity".to_owned(),
            "Plain".to_owned(),
            "Assets/Scenes/Two.Dots.unity".to_owned(),
        ],
    };
    assert_eq!(settings.scene_names(), vec!["Menu", "Fungus1_12", "Plain", "Two.Dots"]);
    assert_eq!(settings.scene_index("Fungus1_12"), Some(1));
    assert_eq!(settings.scene_index("Menu.unity"), None);
    assert_eq!(BuildSettings { scenes: vec![] }.scene_names(), Vec::<String>::new());
}

#[test]
fn unpacked_game_lists_its_serialized_files() {
    let all: Vec<String> = ["globalgamemanagers", "level0", "level1", "level2", "level3"]
        .iter()
        .map(|s| s.to_string())
        .collect();
    assert_eq!(serialized_files(&all), all);
    assert_eq!(level_files(&all), vec![0, 1, 2, 3]);
}

#[test]
fn serialized_files_are_levels_assets_and_the_game_managers() {
    assert!(is_serialized_file("level12"));
    assert!(is_serialized_file("sharedassets0.assets"));
    assert!(is_serialized_file("globalgamemanagers"));
    assert!(is_serialized_file("sub/dir/level3"));
    assert!(is_serialized_file("globalgamemanagers.assets"));
    assert!(!is_serialized_file("level0.resS"));
    assert!(!is_serialized_file("data.unity3d"));
    assert!(!is_serialized_file("globalgamemanagers/other"));
    assert!(!is_serialized_file("app.info"));
    assert!(!is_serialized_file("levelx"));
    let all: Vec<String> = ["boot.config", "level10", "resources.assets", "level2.resS", "Managed/x.dll"]
        .iter()
        .map(|s| s.to_string())
        .collect();
    assert_eq!(serialized_files(&all), vec!["level10", "resources.assets"]);
    assert_eq!(level_files(&all), vec![10]);
}

#[test]
fn streamed_files_are_looked_for_below_resources() {
    assert_eq!(resource_fallback("Library/unity default resources"), Some("Resources/unity default resources".to_owned()));
    assert_eq!(resource_fallback("Library/"), Some("Resources/".to_owned()));
    assert_eq!(resource_fallback("Libraryx/a"), None);
    assert_eq!(resource_fallback("level0"), None);
}

#[test]
fn path_set_is_listed_in_its_order() {
    let mut set = indexmap::IndexSet::new();
    set.insert("x".to_owned());
    set.insert("y".to_owned());
    set.insert("x".to_owned());
    assert_eq!(path_set_to_vec(&set), vec!["x", "y"]);
    assert!(path_set_to_vec(&indexmap::IndexSet::new()).is_empty());
}

#[test]
fn asset_infos_and_pointers() {
    let empty = AssetInfo::empty();
    assert!(empty.asset.is_null());
    assert_eq!((empty.preload_index, empty.preload_size), (0, 0));
    assert!(Pptr::null().is_null());
    assert!(Pptr::null().is_local());
    assert!(Pptr::local(5).is_local());
    assert!(!Pptr::local(5).is_null());
    assert!(!Pptr::new(1, 0).is_null());
    assert!(!Pptr::new(1, 0).is_local());
    assert_eq!(Pptr::null().optional(), None);
    assert_eq!(Pptr::new(2, 3).optional(), Some(Pptr { file_id: 2, path_id: 3 }));
    assert_eq!(Pptr::local(9), Pptr { file_id: 0, path_id: 9 });
}

fn script(namespace: &str, class_name: &str) -> MonoScript {
    MonoScript {
        name: class_name.to_owned(),
        execution_order: 0,
        properties_hash: 0,
        class_name: class_name.to_owned(),
        namespace: namespace.to_owned(),
        assembly_name: "Assembly-CSharp".to_owned(),
    }
}

#[test]
fn scripts_are_named_with_their_namespace() {
    assert_eq!(script("", "Enemy").full_name(), "Enemy");
    assert_eq!(script("Game.AI", "Enemy").full_name(), "Game.AI.Enemy");
    assert_eq!(
        script("Game", "Enemy").into_location(),
        ("Assembly-CSharp".to_owned(), "Game.Enemy".to_owned())
    );
    assert_eq!(script("", "E").into_location(), ("Assembly-CSharp".to_owned(), "E".to_owned()));
}

#[test]
fn choices_of_the_output() {
    assert!(Mode::Asset.needs_typetree_generator());
    assert!(!Mode::Scene.needs_typetree_generator());
    assert!(!Mode::AssetShallow.needs_typetree_generator());
    assert_eq!(Compression::Uncompressed.code(), 0);
    assert_eq!(Compression::Lzma.code(), 1);
    assert_eq!(Compression::Lz4hc.code(), 3);
}

#[test]
fn failures_of_a_walk_become_failures_of_repacking() {
    assert_eq!(RepackError::from_walk(WalkError::Unsupported), RepackError::UnsupportedFeature);
    assert_eq!(RepackError::from_walk(WalkError::UnexpectedEof), RepackError::Parse);
    assert_eq!(RepackError::from_walk(WalkError::InvalidSeek), RepackError::Parse);
    assert_eq!(RepackError::from_walk(WalkError::MalformedTree), RepackError::Parse);
}
