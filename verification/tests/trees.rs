use unity_scene_repacker::monobehaviour_typetree_export::{parse_export, read, ExportError};
use unity_scene_repacker::typetree::TypeTreeNode;
use unity_scene_repacker::typetree_cache::TypeTreeCache;
use unity_scene_repacker::typetree_generator_api::{
    is_one_tree, prepend_base_fields, reconstruct_typetree_node, Error, FlatNode, GeneratorBackend,
};
use unity_scene_repacker::typetree_generator_cache::{CachedTree, Generated, TypeTreeGeneratorCache};

fn flat(ty: &str, name: &str, level: u8, meta_flag: i32) -> FlatNode {
    FlatNode { ty: ty.to_owned(), name: name.to_owned(), level, meta_flag }
}

fn leaf(ty: &str, name: &str, level: u8) -> TypeTreeNode {
    TypeTreeNode { ty: ty.to_owned(), name: name.to_owned(), level, meta_flag: 0, children: vec![] }
}

fn shape(node: &TypeTreeNode) -> String {
    let kids: Vec<String> = node.children.iter().map(shape).collect();
    format!("{}:{}@{}[{}]", node.ty, node.name, node.level, kids.join(","))
}

#[test]
fn tree_is_rebuilt_from_its_nodes_in_pre_order() {
    let nodes = vec![
        flat("MonoBehaviour", "Base", 0, 0),
        flat("Vector3f", "m_Pos", 1, 0x4000),
        flat("float", "x", 2, 0),
        flat("float", "y", 2, 0),
        flat("int", "m_Count", 1, 0),
        flat("PPtr<Object>", "m_Target", 1, 0),
        flat("int", "m_FileID", 2, 0),
        flat("SInt64", "m_PathID", 2, 0),
    ];
    assert!(is_one_tree(&nodes));
    let tree = reconstruct_typetree_node(&nodes);
    assert_eq!(
        shape(&tree),
        "MonoBehaviour:Base@0[Vector3f:m_Pos@1[float:x@2[],float:y@2[]],int:m_Count@1[],\
         PPtr<Object>:m_Target@1[int:m_FileID@2[],SInt64:m_PathID@2[]]]"
    );
    assert_eq!(tree.children[0].meta_flag, 0x4000);
}

#[test]
fn node_becomes_a_child_of_the_nearest_lower_level() {
    let nodes = vec![
        flat("A", "a", 0, 0),
        flat("B", "b", 3, 0),
        flat("C", "c", 2, 0),
        flat("D", "d", 5, 0),
        flat("E", "e", 2, 0),
        flat("F", "f", 1, 0),
    ];
    let tree = reconstruct_typetree_node(&nodes);
    assert_eq!(shape(&tree), "A:a@0[B:b@3[],C:c@2[D:d@5[]],E:e@2[],F:f@1[]]");
    let single = reconstruct_typetree_node(&vec![flat("A", "a", 4, 0)]);
    assert_eq!(shape(&single), "A:a@4[]");
}

#[test]
fn lists_that_are_no_single_tree_are_told_apart() {
    assert!(!is_one_tree(&vec![]));
    assert!(is_one_tree(&vec![flat("A", "a", 0, 0)]));
    assert!(!is_one_tree(&vec![flat("A", "a", 0, 0), flat("B", "b", 0, 0)]));
    assert!(!is_one_tree(&vec![flat("A", "a", 1, 0), flat("B", "b", 2, 0), flat("C", "c", 0, 0)]));
    assert!(is_one_tree(&vec![flat("A", "a", 1, 0), flat("B", "b", 2, 0)]));
}

#[test]
fn base_fields_come_in_front_of_the_fields_of_a_script() {
    let mut base = leaf("MonoBehaviour", "Base", 0);
    base.children = vec![leaf("PPtr<GameObject>", "m_GameObject", 1), leaf("UInt8", "m_Enabled", 1)];
    let mut own = leaf("Enemy", "Base", 0);
    own.meta_flag = 7;
    own.children = vec![leaf("int", "health", 1)];
    let tree = prepend_base_fields(base, own);
    assert_eq!(
        shape(&tree),
        "Enemy:Base@0[PPtr<GameObject>:m_GameObject@1[],UInt8:m_Enabled@1[],int:health@1[]]"
    );
    assert_eq!(tree.meta_flag, 7);
}

#[test]
fn tree_is_copied_with_all_below_it() {
    let mut tree = leaf("A", "a", 0);
    tree.children = vec![leaf("B", "b", 1)];
    tree.children[0].children = vec![leaf("C", "c", 2)];
    tree.children[0].meta_flag = 0x4000;
    let copy = tree.duplicate();
    assert_eq!(shape(&copy), shape(&tree));
    assert_eq!(copy.children[0].meta_flag, 0x4000);
    let plain = TypeTreeNode::leaf("int".to_owned(), "x".to_owned(), 3, 5);
    assert_eq!(shape(&plain), "int:x@3[]");
    assert_eq!(plain.meta_flag, 5);
}

#[test]
fn status_codes_of_the_generator() {
    assert!(Error::from_code(0).is_ok());
    assert!(matches!(Error::from_code(3), Err(Error::Status(3))));
    assert!(matches!(Error::from_code(-1), Err(Error::Status(-1))));
    assert_eq!(GeneratorBackend::AssetStudio.name(), "AssetStudio");
    assert_eq!(GeneratorBackend::AssetsTools.name(), "AssetsTools");
    assert_eq!(GeneratorBackend::AssetRipper.name(), "AssetRipper");
}

fn put_str(out: &mut Vec<u8>, s: &str) {
    out.extend_from_slice(&(s.len() as u32).to_le_bytes());
    out.extend_from_slice(s.as_bytes());
}

fn put_node(out: &mut Vec<u8>, name: &str, ty: &str, level: u8, meta_flag: i32) {
    put_str(out, name);
    put_str(out, ty);
    out.push(level);
    out.extend_from_slice(&meta_flag.to_le_bytes());
}

fn export() -> Vec<u8> {
    let mut out = Vec::new();
    out.extend_from_slice(&2u32.to_le_bytes());
    put_str(&mut out, "Assembly-CSharp.dll");
    out.extend_from_slice(&2u32.to_le_bytes());
    put_str(&mut out, "Game.Enemy");
    out.extend_from_slice(&3u32.to_le_bytes());
    put_node(&mut out, "Base", "Enemy", 0, 1);
    put_node(&mut out, "health", "int", 1, -2);
    put_node(&mut out, "näme", "string", 1, 0x4000);
    put_str(&mut out, "Lone");
    out.extend_from_slice(&1u32.to_le_bytes());
    put_node(&mut out, "Base", "Lone", 0, 0);
    put_str(&mut out, "Other.dll");
    out.extend_from_slice(&0u32.to_le_bytes());
    out
}

#[test]
fn export_is_read_assembly_by_assembly() {
    let entries = parse_export(&export()).unwrap();
    assert_eq!(entries.len(), 2);
    assert_eq!(entries[0].assembly, "Assembly-CSharp.dll");
    assert_eq!(entries[0].full_name, "Game.Enemy");
    assert_eq!(shape(&entries[0].tree), "Enemy:Base@0[int:health@1[],string:näme@1[]]");
    assert_eq!(entries[0].tree.meta_flag, 1);
    assert_eq!(entries[0].tree.children[0].meta_flag, -2);
    assert_eq!(entries[0].tree.children[1].meta_flag, 0x4000);
    assert_eq!(entries[1].assembly, "Assembly-CSharp.dll");
    assert_eq!(entries[1].full_name, "Lone");
    assert_eq!(shape(&entries[1].tree), "Lone:Base@0[]");
}

#[test]
fn export_is_decompressed_before_it_is_read() {
    let packed = lz4_flex::compress_prepend_size(&export());
    assert_ne!(packed, export());
    let entries = read(&packed).unwrap();
    assert_eq!(entries.len(), 2);
    assert_eq!(entries[0].full_name, "Game.Enemy");
    assert_eq!(read(&[1, 2]).err(), Some(ExportError::Decompress));
    assert_eq!(read(&[200, 0, 0, 0, 0xf0]).err(), Some(ExportError::Decompress));
    let empty = lz4_flex::compress_prepend_size(&[]);
    assert_eq!(read(&empty).err(), Some(ExportError::UnexpectedEof));
    let nothing = lz4_flex::compress_prepend_size(&0u32.to_le_bytes());
    assert!(read(&nothing).unwrap().is_empty());
}

#[test]
fn export_that_is_cut_short_fails() {
    let whole = export();
    assert!(parse_export(&whole).is_ok());
    for cut in 0..whole.len() {
        assert_eq!(parse_export(&whole[..cut]).err(), Some(ExportError::UnexpectedEof), "cut at {}", cut);
    }
    let mut longer = whole.clone();
    longer.extend_from_slice(&[1, 2, 3]);
    assert_eq!(parse_export(&longer).unwrap().len(), 2);
}

#[test]
fn export_with_bad_text_or_bad_levels_fails() {
    let mut out = Vec::new();
    out.extend_from_slice(&1u32.to_le_bytes());
    out.extend_from_slice(&2u32.to_le_bytes());
    out.extend_from_slice(&[0xff, 0xfe]);
    assert_eq!(parse_export(&out).err(), Some(ExportError::InvalidUtf8));
    let mut out = Vec::new();
    out.extend_from_slice(&1u32.to_le_bytes());
    put_str(&mut out, "A.dll");
    out.extend_from_slice(&1u32.to_le_bytes());
    put_str(&mut out, "T");
    out.extend_from_slice(&0u32.to_le_bytes());
    assert_eq!(parse_export(&out).err(), Some(ExportError::InvalidTree));
    let mut out = Vec::new();
    out.extend_from_slice(&1u32.to_le_bytes());
    put_str(&mut out, "A.dll");
    out.extend_from_slice(&1u32.to_le_bytes());
    put_str(&mut out, "T");
    out.extend_from_slice(&2u32.to_le_bytes());
    put_node(&mut out, "Base", "T", 0, 0);
    put_node(&mut out, "Base", "U", 0, 0);
    assert_eq!(parse_export(&out).err(), Some(ExportError::InvalidTree));
}

#[test]
fn class_cache_keeps_what_was_entered_first() {
    let mut cache = TypeTreeCache::new();
    assert!(!cache.contains(4));
    assert!(cache.get_typetree_node(4).is_none());
    cache.insert(4, Some(leaf("Transform", "Base", 0)));
    cache.insert(5, None);
    cache.insert(4, Some(leaf("Other", "Base", 0)));
    cache.insert(5, Some(leaf("Late", "Base", 0)));
    assert!(cache.contains(4));
    assert!(cache.contains(5));
    assert_eq!(cache.get_typetree_node(4).unwrap().ty, "Transform");
    assert!(cache.get_typetree_node(5).is_none());
    assert_eq!(cache.entries.len(), 2);
}

fn base() -> TypeTreeNode {
    let mut base = leaf("MonoBehaviour", "Base", 0);
    base.children = vec![leaf("UInt8", "m_Enabled", 1)];
    base
}

#[test]
fn prefilled_script_cache_knows_only_what_it_holds() {
    let cache = TypeTreeGeneratorCache::prefilled(
        vec![
            CachedTree { assembly: "A.dll".to_owned(), full_name: "X".to_owned(), tree: leaf("X", "Base", 0) },
            CachedTree { assembly: "A.dll".to_owned(), full_name: "X".to_owned(), tree: leaf("Late", "Base", 0) },
        ],
        base(),
    );
    match cache.generate("A.dll", "X") {
        Generated::Known(tree) => assert_eq!(tree.ty, "X"),
        _ => panic!("the cache holds the script"),
    }
    assert!(matches!(cache.generate("A.dll", "Y"), Generated::Missing));
    assert!(matches!(cache.generate("B.dll", "X"), Generated::Missing));
}

#[test]
fn live_script_cache_stores_what_the_generator_answers() {
    let mut cache = TypeTreeGeneratorCache::new(base());
    assert!(matches!(cache.generate("A.dll", "X"), Generated::AskGenerator));
    let mut answer = leaf("X", "Base", 0);
    answer.children = vec![leaf("int", "health", 1)];
    let at = cache.store("A.dll", "X", Some(answer));
    assert_eq!(at, 0);
    assert_eq!(shape(&cache.cache[0].tree), "X:Base@0[UInt8:m_Enabled@1[],int:health@1[]]");
    let at = cache.store("A.dll", "Empty", None);
    assert_eq!(at, 1);
    assert_eq!(shape(&cache.cache[1].tree), "MonoBehaviour:Base@0[UInt8:m_Enabled@1[]]");
    let again = cache.store("A.dll", "X", None);
    assert_eq!(again, 0);
    assert_eq!(cache.cache.len(), 2);
    match cache.generate("A.dll", "X") {
        Generated::Known(tree) => assert_eq!(tree.children.len(), 2),
        _ => panic!("the cache holds the script"),
    }
    assert_eq!(cache.base_node.children.len(), 1);
}
