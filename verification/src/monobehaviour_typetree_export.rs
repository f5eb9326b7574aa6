//! The export of the type trees of user scripts: for each assembly the
//! types it defines, each with its nodes in pre-order.

use crate::endian::{i32_at, read_i32, read_u32, u32_at};

use crate::typetree::TypeTreeNode;
use crate::typetree_generator_api::{
    flat_models, flatten, is_one_tree, nested, one_tree, reconstruct_typetree_node, FlatModel,
    FlatNode,
};
use lz4_flex::block::DecompressError;
use vstd::prelude::*;
use vstd::slice::{slice_subrange, slice_to_vec};
use vstd::utf8::{decode_utf8, valid_utf8};

verus! {

/// `lz4_flex::block::DecompressError`, held as an opaque value.
#[verifier::external_type_specification]
#[verifier::external_body]
pub struct ExDecompressError(DecompressError);

/// What an LZ4 block with its size in front decompresses to, if it is one.
pub uninterp spec fn lz4_block(input: Seq<u8>) -> Option<Seq<u8>>;

/// `lz4_flex::decompress_size_prepended`: the bytes that the block
/// decompresses to, where it is a valid block with its size in front.
#[verifier::external_body]
fn decompress_size_prepended(input: &[u8]) -> (r: Result<Vec<u8>, DecompressError>)
    ensures
        match r {
            Ok(bytes) => lz4_block(input@) == Some(bytes@),
            Err(_) => lz4_block(input@) is None,
        },
{
    lz4_flex::decompress_size_prepended(input)
}

/// `String::from_utf8` of std: the text that the bytes encode, where they
/// are valid UTF-8.
#[verifier::external_body]
fn string_from_utf8(bytes: Vec<u8>) -> (r: Option<String>)
    ensures
        match r {
            Some(s) => valid_utf8(bytes@) && s@ == decode_utf8(bytes@),
            None => !valid_utf8(bytes@),
        },
{
    String::from_utf8(bytes).ok()
}

/// Why an export could not be read.
#[derive(Clone, Copy, Debug, PartialEq, Eq, Structural)]
pub enum ExportError {
    /// The export is no valid LZ4 block with its size in front.
    Decompress,
    /// The export ends before what it announces.
    UnexpectedEof,
    /// A name is no valid UTF-8.
    InvalidUtf8,
    /// The nodes of a type cannot be read as one tree.
    InvalidTree,
}

/// The type tree of one type of an assembly.
#[derive(Debug)]
pub struct ExportEntry {
    pub assembly: String,
    pub full_name: String,
    pub tree: TypeTreeNode,
}

/// One type of an export as plain values: its assembly, its name and its
/// nodes in pre-order.
pub struct EntryModel {
    pub assembly: Seq<char>,
    pub full_name: Seq<char>,
    pub nodes: Seq<FlatModel>,
}

impl View for ExportEntry {
    type V = EntryModel;

    open spec fn view(&self) -> EntryModel {
        EntryModel {
            assembly: self.assembly@,
            full_name: self.full_name@,
            nodes: flatten(self.tree@),
        }
    }
}

/// Whether the tree of every entry is nested.
pub open spec fn all_nested(entries: Seq<ExportEntry>) -> bool {
    forall|i: int| 0 <= i < entries.len() ==> nested((#[trigger] entries[i]).tree@)
}

/// The entries as plain values.
pub open spec fn entry_models(entries: Seq<ExportEntry>) -> Seq<EntryModel> {
    Seq::new(entries.len(), |i: int| entries[i]@)
}

/// The unsigned 32-bit number at `pos`, least significant byte first, and
/// the position behind it.
pub open spec fn number_at(bytes: Seq<u8>, pos: int) -> Result<(nat, int), ExportError> {
    if pos + 4 > bytes.len() {
        Err(ExportError::UnexpectedEof)
    } else {
        Ok((u32_at(bytes, pos, false), pos + 4))
    }
}

/// The text at `pos`: its length as a 32-bit number, then its bytes in
/// UTF-8; and the position behind it.
#[verifier::opaque]
pub open spec fn text_at(bytes: Seq<u8>, pos: int) -> Result<(Seq<char>, int), ExportError> {
    match number_at(bytes, pos) {
        Err(e) => Err(e),
        Ok(len) => if len.1 + len.0 > bytes.len() {
            Err(ExportError::UnexpectedEof)
        } else if !valid_utf8(bytes.subrange(len.1, len.1 + len.0)) {
            Err(ExportError::InvalidUtf8)
        } else {
            Ok((decode_utf8(bytes.subrange(len.1, len.1 + len.0)), len.1 + len.0))
        },
    }
}

/// The node at `pos`: its name, its type, its level as one byte and its
/// meta flag as a signed 32-bit number; and the position behind it.
pub open spec fn node_at(bytes: Seq<u8>, pos: int) -> Result<(FlatModel, int), ExportError> {
    match text_at(bytes, pos) {
        Err(e) => Err(e),
        Ok(name) => match text_at(bytes, name.1) {
            Err(e) => Err(e),
            Ok(ty) => if ty.1 + 5 > bytes.len() {
                Err(ExportError::UnexpectedEof)
            } else {
                Ok(
                    (
                        FlatModel {
                            ty: ty.0,
                            name: name.0,
                            level: bytes[ty.1],
                            meta_flag: i32_at(bytes, ty.1 + 1, false) as i32,
                        },
                        ty.1 + 5,
                    ),
                )
            },
        },
    }
}

/// The `left` nodes from `pos` on, behind those in `acc`.
pub open spec fn nodes_from(bytes: Seq<u8>, pos: int, left: nat, acc: Seq<FlatModel>) -> Result<
    (Seq<FlatModel>, int),
    ExportError,
>
    decreases left,
{
    if left == 0 {
        Ok((acc, pos))
    } else {
        match node_at(bytes, pos) {
            Err(e) => Err(e),
            Ok(node) => nodes_from(bytes, node.1, (left - 1) as nat, acc.push(node.0)),
        }
    }
}

/// The type at `pos`: its name, the number of its nodes and the nodes,
/// which must be one tree; and the position behind it.
pub open spec fn type_at(bytes: Seq<u8>, pos: int, assembly: Seq<char>) -> Result<
    (EntryModel, int),
    ExportError,
> {
    match text_at(bytes, pos) {
        Err(e) => Err(e),
        Ok(full_name) => match number_at(bytes, full_name.1) {
            Err(e) => Err(e),
            Ok(count) => match nodes_from(bytes, count.1, count.0, Seq::empty()) {
                Err(e) => Err(e),
                Ok(nodes) => if !one_tree(nodes.0) {
                    Err(ExportError::InvalidTree)
                } else {
                    Ok((EntryModel { assembly, full_name: full_name.0, nodes: nodes.0 }, nodes.1))
                },
            },
        },
    }
}

/// The `left` types of an assembly from `pos` on, behind the entries in `acc`.
pub open spec fn types_from(
    bytes: Seq<u8>,
    pos: int,
    assembly: Seq<char>,
    left: nat,
    acc: Seq<EntryModel>,
) -> Result<(Seq<EntryModel>, int), ExportError>
    decreases left,
{
    if left == 0 {
        Ok((acc, pos))
    } else {
        match type_at(bytes, pos, assembly) {
            Err(e) => Err(e),
            Ok(entry) => types_from(bytes, entry.1, assembly, (left - 1) as nat, acc.push(entry.0)),
        }
    }
}

/// The `left` assemblies from `pos` on, behind the entries in `acc`: each
/// with its name, the number of its types and the types.
pub open spec fn assemblies_from(bytes: Seq<u8>, pos: int, left: nat, acc: Seq<EntryModel>)
    -> Result<Seq<EntryModel>, ExportError>
    decreases left,
{
    if left == 0 {
        Ok(acc)
    } else {
        match text_at(bytes, pos) {
            Err(e) => Err(e),
            Ok(name) => match number_at(bytes, name.1) {
                Err(e) => Err(e),
                Ok(count) => match types_from(bytes, count.1, name.0, count.0, acc) {
                    Err(e) => Err(e),
                    Ok(types) => assemblies_from(bytes, types.1, (left - 1) as nat, types.0),
                },
            },
        }
    }
}

/// The entries that decompressed bytes spell: the number of assemblies,
/// then the assemblies. What follows them is not looked at.
pub open spec fn parsed_export(bytes: Seq<u8>) -> Result<Seq<EntryModel>, ExportError> {
    match number_at(bytes, 0) {
        Err(e) => Err(e),
        Ok(count) => assemblies_from(bytes, count.1, count.0, Seq::empty()),
    }
}

/// The entries that an export holds.
pub open spec fn read_export(export: Seq<u8>) -> Result<Seq<EntryModel>, ExportError> {
    match lz4_block(export) {
        None => Err(ExportError::Decompress),
        Some(bytes) => parsed_export(bytes),
    }
}

/// Reads a 32-bit number.
fn read_number(data: &[u8], pos: usize) -> (r: Result<(u32, usize), ExportError>)
    requires
        pos <= data@.len(),
    ensures
        match r {
            Ok(v) => number_at(data@, pos as int) == Ok::<(nat, int), ExportError>(
                (v.0 as nat, v.1 as int),
            ) && v.1 <= data@.len(),
            Err(e) => number_at(data@, pos as int) == Err::<(nat, int), ExportError>(e),
        },
{
    let len: usize = data.len();
    if len - pos < 4 {
        Err(ExportError::UnexpectedEof)
    } else {
        Ok((read_u32(data, pos, false), pos + 4))
    }
}

/// Reads a text.
fn read_str(data: &[u8], pos: usize) -> (r: Result<(String, usize), ExportError>)
    requires
        pos <= data@.len(),
    ensures
        match r {
            Ok(v) => text_at(data@, pos as int) == Ok::<(Seq<char>, int), ExportError>(
                (v.0@, v.1 as int),
            ) && v.1 <= data@.len(),
            Err(e) => text_at(data@, pos as int) == Err::<(Seq<char>, int), ExportError>(e),
        },
{
    reveal(text_at);
    let (len, start) = match read_number(data, pos) {
        Ok(v) => v,
        Err(e) => {
            return Err(e);
        },
    };
    let total: usize = data.len();
    if len as u64 > (total - start) as u64 {
        return Err(ExportError::UnexpectedEof);
    }
    let end: usize = start + len as usize;
    match string_from_utf8(slice_to_vec(slice_subrange(data, start, end))) {
        Some(s) => Ok((s, end)),
        None => Err(ExportError::InvalidUtf8),
    }
}

/// Reads a node.
fn read_node(data: &[u8], pos: usize) -> (r: Result<(FlatNode, usize), ExportError>)
    requires
        pos <= data@.len(),
    ensures
        match r {
            Ok(v) => node_at(data@, pos as int) == Ok::<(FlatModel, int), ExportError>(
                (v.0@, v.1 as int),
            ) && v.1 <= data@.len(),
            Err(e) => node_at(data@, pos as int) == Err::<(FlatModel, int), ExportError>(e),
        },
{
    let (name, after_name) = match read_str(data, pos) {
        Ok(v) => v,
        Err(e) => {
            return Err(e);
        },
    };
    let (ty, after_type) = match read_str(data, after_name) {
        Ok(v) => v,
        Err(e) => {
            return Err(e);
        },
    };
    let total: usize = data.len();
    if total - after_type < 5 {
        return Err(ExportError::UnexpectedEof);
    }
    let level = data[after_type];
    let meta_flag = read_i32(data, after_type + 1, false);
    Ok((FlatNode { ty, name, level, meta_flag }, after_type + 5))
}

/// Reads the nodes of a type.
fn read_nodes(data: &[u8], pos: usize, count: u32) -> (r: Result<(Vec<FlatNode>, usize), ExportError>)
    requires
        pos <= data@.len(),
    ensures
        match r {
            Ok(v) => nodes_from(data@, pos as int, count as nat, Seq::empty()) == Ok::<
                (Seq<FlatModel>, int),
                ExportError,
            >((flat_models(v.0@), v.1 as int)) && v.1 <= data@.len(),
            Err(e) => nodes_from(data@, pos as int, count as nat, Seq::empty()) == Err::<
                (Seq<FlatModel>, int),
                ExportError,
            >(e),
        },
{
    let mut nodes: Vec<FlatNode> = Vec::new();
    let mut cur: usize = pos;
    let mut left: u32 = count;
    assert(flat_models(nodes@) =~= Seq::empty());
    while left > 0
        invariant
            cur <= data@.len(),
            nodes_from(data@, pos as int, count as nat, Seq::empty()) == nodes_from(
                data@,
                cur as int,
                left as nat,
                flat_models(nodes@),
            ),
        decreases left,
    {
        let ghost before = flat_models(nodes@);
        match read_node(data, cur) {
            Err(e) => {
                return Err(e);
            },
            Ok((node, after)) => {
                nodes.push(node);
                assert(flat_models(nodes@) =~= before.push(node@));
                cur = after;
            },
        }
        left -= 1;
    }
    Ok((nodes, cur))
}

/// Reads the types of an assembly.
fn read_types(
    data: &[u8],
    pos: usize,
    assembly: &String,
    count: u32,
    entries: &mut Vec<ExportEntry>,
) -> (r: Result<usize, ExportError>)
    requires
        pos <= data@.len(),
        all_nested(old(entries)@),
    ensures
        r is Ok ==> all_nested(final(entries)@),
        match r {
            Ok(end) => types_from(
                data@,
                pos as int,
                assembly@,
                count as nat,
                entry_models(old(entries)@),
            ) == Ok::<(Seq<EntryModel>, int), ExportError>(
                (entry_models(final(entries)@), end as int),
            ) && end <= data@.len(),
            Err(e) => types_from(
                data@,
                pos as int,
                assembly@,
                count as nat,
                entry_models(old(entries)@),
            ) == Err::<(Seq<EntryModel>, int), ExportError>(e),
        },
{
    let mut cur: usize = pos;
    let mut left: u32 = count;
    while left > 0
        invariant
            cur <= data@.len(),
            all_nested(entries@),
            types_from(data@, pos as int, assembly@, count as nat, entry_models(old(entries)@))
                == types_from(data@, cur as int, assembly@, left as nat, entry_models(entries@)),
        decreases left,
    {
        let ghost before = entry_models(entries@);
        let (full_name, after_name) = match read_str(data, cur) {
            Ok(v) => v,
            Err(e) => {
                return Err(e);
            },
        };
        let (n_nodes, after_count) = match read_number(data, after_name) {
            Ok(v) => v,
            Err(e) => {
                return Err(e);
            },
        };
        let (flat_nodes, after_nodes) = match read_nodes(data, after_count, n_nodes) {
            Ok(v) => v,
            Err(e) => {
                return Err(e);
            },
        };
        if !is_one_tree(&flat_nodes) {
            return Err(ExportError::InvalidTree);
        }
        let tree = reconstruct_typetree_node(&flat_nodes);
        let entry = ExportEntry { assembly: assembly.clone(), full_name, tree };
        entries.push(entry);
        assert(entry_models(entries@) =~= before.push(entry@));
        cur = after_nodes;
        left -= 1;
    }
    Ok(cur)
}

/// Reads the entries that decompressed bytes spell.
pub fn parse_export(data: &[u8]) -> (r: Result<Vec<ExportEntry>, ExportError>)
    ensures
        match r {
            Ok(entries) => parsed_export(data@) == Ok::<Seq<EntryModel>, ExportError>(
                entry_models(entries@),
            ) && all_nested(entries@),
            Err(e) => parsed_export(data@) == Err::<Seq<EntryModel>, ExportError>(e),
        },
{
    let (n_assemblies, start) = match read_number(data, 0) {
        Ok(v) => v,
        Err(e) => {
            return Err(e);
        },
    };
    let mut entries: Vec<ExportEntry> = Vec::new();
    let mut cur: usize = start;
    let mut left: u32 = n_assemblies;
    assert(entry_models(entries@) =~= Seq::empty());
    while left > 0
        invariant
            cur <= data@.len(),
            all_nested(entries@),
            parsed_export(data@) == assemblies_from(
                data@,
                cur as int,
                left as nat,
                entry_models(entries@),
            ),
        decreases left,
    {
        let (assembly_name, after_name) = match read_str(data, cur) {
            Ok(v) => v,
            Err(e) => {
                return Err(e);
            },
        };
        let (n_types, after_count) = match read_number(data, after_name) {
            Ok(v) => v,
            Err(e) => {
                return Err(e);
            },
        };
        match read_types(data, after_count, &assembly_name, n_types, &mut entries) {
            Ok(end) => {
                cur = end;
            },
            Err(e) => {
                return Err(e);
            },
        }
        left -= 1;
    }
    Ok(entries)
}

/// Reads an export: decompresses it and reads the entries it spells.
pub fn read(export: &[u8]) -> (r: Result<Vec<ExportEntry>, ExportError>)
    ensures
        match r {
            Ok(entries) => read_export(export@) == Ok::<Seq<EntryModel>, ExportError>(
                entry_models(entries@),
            ) && all_nested(entries@),
            Err(e) => read_export(export@) == Err::<Seq<EntryModel>, ExportError>(e),
        },
{
    match decompress_size_prepended(export) {
        Err(_) => Err(ExportError::Decompress),
        Ok(bytes) => parse_export(bytes.as_slice()),
    }
}

} // verus!
