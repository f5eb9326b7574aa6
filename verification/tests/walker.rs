use rustc_hash::FxHashMap;
use unity_scene_repacker::endian::{read_i32, read_i64, read_u32, write_i32, write_i64};
use unity_scene_repacker::typetree::TypeTreeNode;
use unity_scene_repacker::walker::{
    classify, replace_pptrs_inplace, replace_pptrs_inplace_endianed, trace_pptrs, visit,
    Endianness, NodeKind, WalkError,
};

const ALIGN: i32 = 0x4000;

fn node(ty: &str, name: &str, meta_flag: i32, children: Vec<TypeTreeNode>) -> TypeTreeNode {
    TypeTreeNode { ty: ty.to_owned(), name: name.to_owned(), level: 0, meta_flag, children }
}

fn leaf(ty: &str, name: &str) -> TypeTreeNode {
    node(ty, name, 0, vec![])
}

fn pptr(ty: &str, name: &str, meta_flag: i32) -> TypeTreeNode {
    node(ty, name, meta_flag, vec![leaf("int", "m_FileID"), leaf("SInt64", "m_PathID")])
}

fn array_of(name: &str, item: TypeTreeNode, meta_flag: i32) -> TypeTreeNode {
    node(
        "vector",
        name,
        meta_flag,
        vec![node("Array", "Array", 0, vec![leaf("int", "size"), item])],
    )
}

fn put_pptr(data: &mut Vec<u8>, file_id: i32, path_id: i64) {
    data.extend_from_slice(&file_id.to_le_bytes());
    data.extend_from_slice(&path_id.to_le_bytes());
}

fn no_paths() -> FxHashMap<i64, i64> {
    FxHashMap::default()
}

fn no_files() -> FxHashMap<i32, i32> {
    FxHashMap::default()
}

#[test]
fn scan_finds_a_pointer_behind_an_int() {
    let tree =
        node("Thing", "Base", 0, vec![leaf("int", "m_Count"), pptr("PPtr<Object>", "m_Target", 0)]);
    let mut data = vec![7u8, 0, 0, 0];
    put_pptr(&mut data, 0, 42);
    let found = trace_pptrs(&tree, &data, Endianness::Little).unwrap();
    assert_eq!(found.len(), 1);
    assert_eq!(found[0].file_id, 0);
    assert_eq!(found[0].path_id, 42);
}

#[test]
fn scan_passes_over_the_father_and_null_pointers() {
    let tree = node(
        "Transform",
        "Base",
        0,
        vec![
            pptr("PPtr<GameObject>", "m_GameObject", 0),
            pptr("PPtr<Transform>", "m_Father", 0),
            pptr("PPtr<Object>", "m_Empty", 0),
            pptr("PPtr<Object>", "m_Far", 0),
        ],
    );
    let mut data = Vec::new();
    put_pptr(&mut data, 0, 5);
    put_pptr(&mut data, 0, 6);
    put_pptr(&mut data, 0, 0);
    put_pptr(&mut data, 2, 9);
    let found = trace_pptrs(&tree, &data, Endianness::Little).unwrap();
    assert_eq!(found.len(), 2);
    assert_eq!((found[0].file_id, found[0].path_id), (0, 5));
    assert_eq!((found[1].file_id, found[1].path_id), (2, 9));
}

#[test]
fn visit_reports_positions_and_the_cursor() {
    let tree = node(
        "Transform",
        "Base",
        0,
        vec![pptr("PPtr<GameObject>", "m_GameObject", 0), pptr("PPtr<Transform>", "m_Father", 0)],
    );
    let mut data = Vec::new();
    put_pptr(&mut data, 0, 5);
    put_pptr(&mut data, 0, 6);
    let mut scanned = Vec::new();
    assert_eq!(visit(&tree, &data, 0, false, true, &mut scanned), Ok(24));
    assert_eq!(scanned, vec![0]);
    let mut rewritten = Vec::new();
    assert_eq!(visit(&tree, &data, 0, false, false, &mut rewritten), Ok(24));
    assert_eq!(rewritten, vec![0, 12]);
}

#[test]
fn string_is_length_prefixed_and_padded() {
    let tree = node(
        "GameObject",
        "Base",
        0,
        vec![leaf("string", "m_Name"), pptr("PPtr<Object>", "m_Target", 0)],
    );
    let mut data = vec![3u8, 0, 0, 0, b'a', b'b', b'c', 0];
    put_pptr(&mut data, 0, 77);
    let mut positions = Vec::new();
    assert_eq!(visit(&tree, &data, 0, false, true, &mut positions), Ok(20));
    assert_eq!(positions, vec![8]);
}

#[test]
fn primitive_with_the_align_flag_pads_the_cursor() {
    let tree = node(
        "Thing",
        "Base",
        0,
        vec![node("bool", "m_Flag", ALIGN, vec![]), leaf("UInt8", "m_Byte"), leaf("SInt16", "m_Short")],
    );
    let data = vec![1u8, 0, 0, 0, 9, 1, 0];
    let mut positions = Vec::new();
    assert_eq!(visit(&tree, &data, 0, false, true, &mut positions), Ok(7));
    assert!(positions.is_empty());
}

#[test]
fn composite_with_the_align_flag_pads_after_its_children() {
    let tree = node("Thing", "Base", ALIGN, vec![leaf("UInt8", "m_A"), leaf("UInt8", "m_B")]);
    let data = vec![1u8, 2, 0, 0];
    let mut positions = Vec::new();
    assert_eq!(visit(&tree, &data, 0, false, true, &mut positions), Ok(4));
}

#[test]
fn widths_of_the_primitives() {
    assert_eq!(classify("bool"), NodeKind::Fixed(1));
    assert_eq!(classify("char"), NodeKind::Fixed(1));
    assert_eq!(classify("SInt8"), NodeKind::Fixed(1));
    assert_eq!(classify("UInt16"), NodeKind::Fixed(2));
    assert_eq!(classify("short"), NodeKind::Fixed(2));
    assert_eq!(classify("unsigned int"), NodeKind::Fixed(4));
    assert_eq!(classify("Type*"), NodeKind::Fixed(4));
    assert_eq!(classify("float"), NodeKind::Fixed(4));
    assert_eq!(classify("FileSize"), NodeKind::Fixed(8));
    assert_eq!(classify("long long"), NodeKind::Fixed(8));
    assert_eq!(classify("double"), NodeKind::Fixed(8));
    assert_eq!(classify("string"), NodeKind::Text);
    assert_eq!(classify("map"), NodeKind::Dictionary);
    assert_eq!(classify("TypelessData"), NodeKind::Opaque);
    assert_eq!(classify("ManagedReferencesRegistry"), NodeKind::Opaque);
    assert_eq!(classify("Vector3f"), NodeKind::Other);
}

#[test]
fn array_of_pointers_is_walked_item_by_item() {
    let tree = node(
        "Transform",
        "Base",
        0,
        vec![array_of("m_Children", pptr("PPtr<Transform>", "data", 0), 0)],
    );
    let mut data = vec![2u8, 0, 0, 0];
    put_pptr(&mut data, 0, 11);
    put_pptr(&mut data, 0, 12);
    let found = trace_pptrs(&tree, &data, Endianness::Little).unwrap();
    assert_eq!(found.len(), 2);
    assert_eq!(found[0].path_id, 11);
    assert_eq!(found[1].path_id, 12);
}

#[test]
fn array_of_bytes_with_the_align_flag_pads_after_the_items() {
    let tree = node(
        "Thing",
        "Base",
        0,
        vec![array_of("m_Bytes", leaf("UInt8", "data"), ALIGN), pptr("PPtr<Object>", "m_Next", 0)],
    );
    let mut data = vec![3u8, 0, 0, 0, 1, 2, 3, 0];
    put_pptr(&mut data, 0, 8);
    let mut positions = Vec::new();
    assert_eq!(visit(&tree, &data, 0, false, true, &mut positions), Ok(20));
    assert_eq!(positions, vec![8]);
}

#[test]
fn map_is_walked_pair_by_pair() {
    let pair = node("pair", "data", 0, vec![leaf("int", "first"), pptr("PPtr<Object>", "second", 0)]);
    let tree = node(
        "map",
        "m_Table",
        0,
        vec![node("Array", "Array", 0, vec![leaf("int", "size"), pair])],
    );
    let mut data = vec![2u8, 0, 0, 0];
    data.extend_from_slice(&1i32.to_le_bytes());
    put_pptr(&mut data, 0, 21);
    data.extend_from_slice(&2i32.to_le_bytes());
    put_pptr(&mut data, 3, 22);
    let found = trace_pptrs(&tree, &data, Endianness::Little).unwrap();
    assert_eq!(found.len(), 2);
    assert_eq!((found[0].file_id, found[0].path_id), (0, 21));
    assert_eq!((found[1].file_id, found[1].path_id), (3, 22));
}

#[test]
fn map_without_its_children_is_malformed() {
    let tree = node("map", "m_Table", 0, vec![]);
    let data = vec![0u8, 0, 0, 0];
    assert_eq!(trace_pptrs(&tree, &data, Endianness::Little).unwrap_err(), WalkError::MalformedTree);
}

#[test]
fn array_without_an_item_type_is_malformed() {
    let tree = node("vector", "m_List", 0, vec![node("Array", "Array", 0, vec![leaf("int", "size")])]);
    let data = vec![0u8, 0, 0, 0];
    assert_eq!(trace_pptrs(&tree, &data, Endianness::Little).unwrap_err(), WalkError::MalformedTree);
}

#[test]
fn typeless_data_is_unsupported() {
    let tree = node("Thing", "Base", 0, vec![leaf("TypelessData", "m_Data")]);
    assert_eq!(trace_pptrs(&tree, &[], Endianness::Little).unwrap_err(), WalkError::Unsupported);
}

#[test]
fn pointer_beyond_the_end_is_an_unexpected_end() {
    let tree = pptr("PPtr<Object>", "m_Target", 0);
    let data = vec![0u8; 11];
    assert_eq!(trace_pptrs(&tree, &data, Endianness::Little).unwrap_err(), WalkError::UnexpectedEof);
}

#[test]
fn count_beyond_the_end_is_an_unexpected_end() {
    let tree = leaf("string", "m_Name");
    assert_eq!(trace_pptrs(&tree, &[1, 0], Endianness::Little).unwrap_err(), WalkError::UnexpectedEof);
}

#[test]
fn skipping_beyond_the_end_is_no_failure() {
    let tree = node("Thing", "Base", 0, vec![leaf("SInt64", "m_Value")]);
    let mut positions = Vec::new();
    assert_eq!(visit(&tree, &[1, 2], 0, false, true, &mut positions), Ok(8));
}

#[test]
fn cursor_that_leaves_the_range_is_an_invalid_seek() {
    let tree = leaf("SInt64", "m_Value");
    let mut positions = Vec::new();
    assert_eq!(visit(&tree, &[], u64::MAX - 3, false, true, &mut positions), Err(WalkError::InvalidSeek));
}

#[test]
fn big_endian_pointers_are_read_most_significant_byte_first() {
    let tree = pptr("PPtr<Object>", "m_Target", 0);
    let mut data = Vec::new();
    data.extend_from_slice(&0i32.to_be_bytes());
    data.extend_from_slice(&258i64.to_be_bytes());
    let found = trace_pptrs(&tree, &data, Endianness::Big).unwrap();
    assert_eq!(found.len(), 1);
    assert_eq!(found[0].path_id, 258);
    let little = trace_pptrs(&tree, &data, Endianness::Little).unwrap();
    assert_ne!(little[0].path_id, 258);
}

#[test]
fn rewrite_remaps_local_path_ids_and_external_file_ids() {
    let tree = node(
        "Thing",
        "Base",
        0,
        vec![
            pptr("PPtr<Object>", "m_Local", 0),
            pptr("PPtr<Object>", "m_Father", 0),
            pptr("PPtr<Object>", "m_Far", 0),
            pptr("PPtr<Object>", "m_Unknown", 0),
            pptr("PPtr<Object>", "m_Null", 0),
        ],
    );
    let mut data = Vec::new();
    put_pptr(&mut data, 0, 100);
    put_pptr(&mut data, 0, 101);
    put_pptr(&mut data, 1, 100);
    put_pptr(&mut data, 0, 555);
    put_pptr(&mut data, 0, 0);
    let mut paths = no_paths();
    paths.insert(100, 2);
    paths.insert(101, 3);
    paths.insert(0, 9);
    let mut files = no_files();
    files.insert(1, 4);
    replace_pptrs_inplace(&mut data, &tree, &paths, &files, false).unwrap();
    let mut expected = Vec::new();
    put_pptr(&mut expected, 0, 2);
    put_pptr(&mut expected, 0, 3);
    put_pptr(&mut expected, 4, 100);
    put_pptr(&mut expected, 0, 555);
    put_pptr(&mut expected, 0, 0);
    assert_eq!(data, expected);
}

#[test]
fn rewrite_with_empty_remaps_changes_nothing() {
    let tree = node(
        "Thing",
        "Base",
        0,
        vec![
            leaf("string", "m_Name"),
            array_of("m_List", pptr("PPtr<Object>", "data", 0), 0),
            pptr("PPtr<Object>", "m_Far", ALIGN),
        ],
    );
    let mut data = vec![2u8, 0, 0, 0, b'h', b'i', 0, 0, 1, 0, 0, 0];
    put_pptr(&mut data, 0, 31);
    put_pptr(&mut data, 2, 32);
    let before = data.clone();
    replace_pptrs_inplace(&mut data, &tree, &no_paths(), &no_files(), false).unwrap();
    assert_eq!(data, before);
}

#[test]
fn rewrite_that_fails_changes_nothing() {
    let tree = node(
        "Thing",
        "Base",
        0,
        vec![pptr("PPtr<Object>", "m_Local", 0), leaf("string", "m_Name")],
    );
    let mut data = Vec::new();
    put_pptr(&mut data, 0, 100);
    let before = data.clone();
    let mut paths = no_paths();
    paths.insert(100, 2);
    let r = replace_pptrs_inplace(&mut data, &tree, &paths, &no_files(), false);
    assert_eq!(r, Err(WalkError::UnexpectedEof));
    assert_eq!(data, before);
}

#[test]
fn rewrite_honours_the_byte_order() {
    let tree = pptr("PPtr<Object>", "m_Target", 0);
    let mut data = Vec::new();
    data.extend_from_slice(&0i32.to_be_bytes());
    data.extend_from_slice(&7i64.to_be_bytes());
    let mut paths = no_paths();
    paths.insert(7, 0x0102030405060708);
    replace_pptrs_inplace_endianed(&mut data, &tree, &paths, &no_files(), Endianness::Big).unwrap();
    assert_eq!(&data[4..], &[1, 2, 3, 4, 5, 6, 7, 8]);
    let mut little = Vec::new();
    put_pptr(&mut little, 3, 7);
    let mut files = no_files();
    files.insert(3, 0x01020304);
    replace_pptrs_inplace_endianed(&mut little, &tree, &no_paths(), &files, Endianness::Little)
        .unwrap();
    assert_eq!(&little[..4], &[4, 3, 2, 1]);
}

#[test]
fn numbers_are_read_in_both_byte_orders() {
    let data = vec![0xffu8, 1, 2, 3, 4, 5, 6, 7, 8, 0x80];
    assert_eq!(read_u32(&data, 1, false), 0x04030201);
    assert_eq!(read_u32(&data, 1, true), 0x01020304);
    assert_eq!(read_i32(&data, 6, false), -2146957562);
    assert_eq!(read_i32(&[0xff, 0xff, 0xff, 0xfe], 0, true), -2);
    assert_eq!(read_i32(&[0xfe, 0xff, 0xff, 0xff], 0, false), -2);
    assert_eq!(read_i64(&data, 1, false), 0x0807060504030201);
    assert_eq!(read_i64(&data, 1, true), 0x0102030405060708);
    assert_eq!(read_i64(&[0xff; 8], 0, false), -1);
}

#[test]
fn numbers_are_written_in_both_byte_orders() {
    let mut data = vec![9u8; 14];
    write_i32(&mut data, 1, -2, false);
    assert_eq!(data, vec![9, 0xfe, 0xff, 0xff, 0xff, 9, 9, 9, 9, 9, 9, 9, 9, 9]);
    write_i32(&mut data, 1, 0x01020304, true);
    assert_eq!(&data[..6], &[9, 1, 2, 3, 4, 9]);
    write_i64(&mut data, 5, 0x0102030405060708, false);
    assert_eq!(&data[5..], &[8, 7, 6, 5, 4, 3, 2, 1, 9]);
    write_i64(&mut data, 5, -3, true);
    assert_eq!(&data[5..], &[0xff, 0xff, 0xff, 0xff, 0xff, 0xff, 0xff, 0xfd, 9]);
}
