//! The walk over an object's bytes that its type tree dictates.
//!
//! The walk starts at the object's first byte and moves a cursor over the
//! object's fields in the order of the tree. It reads only the counts of
//! strings, arrays and maps, and it reports where the pointer fields lie.

use crate::endian::{
    i32_at, i64_at, lemma_uint_bytes_len, pattern32, pattern64, read_i32, read_i64, read_u32,
    u32_at, with_i32, with_i64, write_i32, write_i64,
};
use crate::fxmap::fx_get;
use crate::pptr::Pptr;
use crate::text::{str_eq, str_starts_with};
use crate::typetree::{lemma_view_unfold, TreeModel, TypeTreeNode};
use rustc_hash::FxHashMap;
use vstd::prelude::*;
use vstd::std_specs::hash::obeys_key_model;

verus! {

/// Why a walk stopped early.
#[derive(Clone, Copy, Debug, PartialEq, Eq, Structural)]
pub enum WalkError {
    /// A count or a pointer lies beyond the end of the bytes.
    UnexpectedEof,
    /// The cursor would leave the 64-bit range.
    InvalidSeek,
    /// The tree holds a node of a kind that the walk does not interpret.
    Unsupported,
    /// A map or an array node lacks the children that its kind prescribes.
    MalformedTree,
}

/// What a type name says about the bytes of a node.
#[derive(Clone, Copy, Debug, PartialEq, Eq, Structural)]
pub enum NodeKind {
    /// A primitive of the given width in bytes.
    Fixed(u64),
    /// A string: a 32-bit length, the bytes, then padding to a multiple of four.
    Text,
    /// A map: a 32-bit count, then that many pairs of key and value.
    Dictionary,
    /// A kind whose layout the tree does not describe.
    Opaque,
    /// Anything else: an array, a pointer or a composite of its children.
    Other,
}

/// The kind that a type name stands for.
pub open spec fn kind_of(ty: Seq<char>) -> NodeKind {
    if ty == "bool"@ || ty == "UInt8"@ || ty == "SInt8"@ || ty == "char"@ {
        NodeKind::Fixed(1)
    } else if ty == "UInt16"@ || ty == "unsigned short"@ || ty == "SInt16"@ || ty == "short"@ {
        NodeKind::Fixed(2)
    } else if ty == "UInt32"@ || ty == "unsigned int"@ || ty == "Type*"@ || ty == "SInt32"@ || ty
        == "int"@ || ty == "float"@ {
        NodeKind::Fixed(4)
    } else if ty == "UInt64"@ || ty == "unsigned long long"@ || ty == "FileSize"@ || ty
        == "SInt64"@ || ty == "long long"@ || ty == "double"@ {
        NodeKind::Fixed(8)
    } else if ty == "string"@ {
        NodeKind::Text
    } else if ty == "map"@ {
        NodeKind::Dictionary
    } else if ty == "TypelessData"@ || ty == "ReferencedObject"@ || ty == "ReferencedObjectData"@
        || ty == "ManagedReferencesRegistry"@ {
        NodeKind::Opaque
    } else {
        NodeKind::Other
    }
}

/// Whether a meta flag asks for padding to a multiple of four after the node.
pub open spec fn aligns(meta_flag: i32) -> bool {
    meta_flag & 0x4000 != 0
}

/// The least multiple of four that is not below `pos`.
pub open spec fn round_up4(pos: int) -> int {
    if pos % 4 == 0 {
        pos
    } else {
        pos + 4 - pos % 4
    }
}

/// Whether the node is a pointer field.
pub open spec fn is_pointer(node: TreeModel) -> bool {
    "PPtr<"@.is_prefix_of(node.ty)
}

/// Whether the walk reports the node as a pointer field. A scan passes over
/// the field that points from a transform up to its father.
pub open spec fn visits(node: TreeModel, scan: bool) -> bool {
    is_pointer(node) && !(scan && node.name == "m_Father"@)
}

/// Whether the node has the shape of an array: one child, of type `Array`.
pub open spec fn array_shaped(node: TreeModel) -> bool {
    node.children.len() == 1 && node.children[0].ty == "Array"@
}

/// Whether a map node has the children that hold its key and value types.
pub open spec fn map_shaped(node: TreeModel) -> bool {
    &&& node.children.len() >= 1
    &&& node.children[0].children.len() >= 2
    &&& node.children[0].children[1].children.len() >= 2
}

/// Where a walk ended and which pointer fields it met, in the order met.
pub struct Walked {
    pub end: int,
    pub pptrs: Seq<usize>,
}

/// The cursor moved forward by `n` bytes.
pub open spec fn advance(pos: int, n: int) -> Result<int, WalkError> {
    if pos + n > u64::MAX {
        Err(WalkError::InvalidSeek)
    } else {
        Ok(pos + n)
    }
}

/// The count stored at the cursor.
pub open spec fn count_at(bytes: Seq<u8>, pos: int, big: bool) -> Result<nat, WalkError> {
    if pos + 4 > bytes.len() {
        Err(WalkError::UnexpectedEof)
    } else {
        Ok(u32_at(bytes, pos, big))
    }
}

/// The cursor at the end of a node, padded if the node asks for it.
pub open spec fn settle(pos: Result<int, WalkError>, pad: bool) -> Result<int, WalkError> {
    match pos {
        Err(e) => Err(e),
        Ok(p) => if !pad {
            Ok(p)
        } else if round_up4(p) > u64::MAX {
            Err(WalkError::InvalidSeek)
        } else {
            Ok(round_up4(p))
        },
    }
}

/// The end of a node: the settled cursor and the pointer fields met.
pub open spec fn finish(pos: Result<int, WalkError>, pad: bool, pptrs: Seq<usize>) -> Result<
    Walked,
    WalkError,
> {
    match settle(pos, pad) {
        Err(e) => Err(e),
        Ok(p) => Ok(Walked { end: p, pptrs }),
    }
}

/// The walk over one node that starts at `pos`, with the pointer fields met
/// so far in `acc`.
pub open spec fn walk_node(
    node: TreeModel,
    bytes: Seq<u8>,
    pos: int,
    big: bool,
    scan: bool,
    acc: Seq<usize>,
) -> Result<Walked, WalkError>
    decreases node, 1nat, 0nat,
{
    match kind_of(node.ty) {
        NodeKind::Fixed(width) => finish(advance(pos, width as int), aligns(node.meta_flag), acc),
        NodeKind::Text => match count_at(bytes, pos, big) {
            Err(e) => Err(e),
            Ok(len) => finish(advance(pos + 4, len as int), true, acc),
        },
        NodeKind::Dictionary => match count_at(bytes, pos, big) {
            Err(e) => Err(e),
            Ok(count) => if !map_shaped(node) {
                Err(WalkError::MalformedTree)
            } else {
                let pair = node.children[0].children[1];
                match walk_pairs(pair, count, bytes, pos + 4, big, scan, acc) {
                    Err(e) => Err(e),
                    Ok(w) => finish(
                        Ok(w.end),
                        aligns(node.meta_flag) || aligns(pair.meta_flag),
                        w.pptrs,
                    ),
                }
            },
        },
        NodeKind::Opaque => Err(WalkError::Unsupported),
        NodeKind::Other => if array_shaped(node) {
            let array = node.children[0];
            if array.children.len() < 2 {
                Err(WalkError::MalformedTree)
            } else {
                match count_at(bytes, pos, big) {
                    Err(e) => Err(e),
                    Ok(count) => match walk_repeat(
                        array.children[1],
                        count,
                        bytes,
                        pos + 4,
                        big,
                        scan,
                        acc,
                    ) {
                        Err(e) => Err(e),
                        Ok(w) => finish(
                            Ok(w.end),
                            aligns(node.meta_flag) || aligns(array.meta_flag),
                            w.pptrs,
                        ),
                    },
                }
            }
        } else if visits(node, scan) {
            if pos + 12 > bytes.len() {
                Err(WalkError::UnexpectedEof)
            } else {
                finish(Ok(pos + 12), aligns(node.meta_flag), acc.push(pos as usize))
            }
        } else {
            match walk_children(node, 0, bytes, pos, big, scan, acc) {
                Err(e) => Err(e),
                Ok(w) => finish(Ok(w.end), aligns(node.meta_flag), w.pptrs),
            }
        },
    }
}

/// The walk over the children of `node` from the `i`-th on.
pub open spec fn walk_children(
    node: TreeModel,
    i: int,
    bytes: Seq<u8>,
    pos: int,
    big: bool,
    scan: bool,
    acc: Seq<usize>,
) -> Result<Walked, WalkError>
    decreases node, 0nat, node.children.len() - i,
{
    if i < 0 || i >= node.children.len() {
        Ok(Walked { end: pos, pptrs: acc })
    } else {
        match walk_node(node.children[i], bytes, pos, big, scan, acc) {
            Err(e) => Err(e),
            Ok(w) => walk_children(node, i + 1, bytes, w.end, big, scan, w.pptrs),
        }
    }
}

/// The walk over `count` items of the type `item`, one after the other.
pub open spec fn walk_repeat(
    item: TreeModel,
    count: nat,
    bytes: Seq<u8>,
    pos: int,
    big: bool,
    scan: bool,
    acc: Seq<usize>,
) -> Result<Walked, WalkError>
    decreases item, 2nat, count,
{
    if count == 0 {
        Ok(Walked { end: pos, pptrs: acc })
    } else {
        match walk_node(item, bytes, pos, big, scan, acc) {
            Err(e) => Err(e),
            Ok(w) => walk_repeat(item, (count - 1) as nat, bytes, w.end, big, scan, w.pptrs),
        }
    }
}

/// The walk over `count` pairs of a key and a value, whose types are the
/// first two children of `pair`.
pub open spec fn walk_pairs(
    pair: TreeModel,
    count: nat,
    bytes: Seq<u8>,
    pos: int,
    big: bool,
    scan: bool,
    acc: Seq<usize>,
) -> Result<Walked, WalkError>
    decreases pair, 2nat, count,
{
    if count == 0 || pair.children.len() < 2 {
        Ok(Walked { end: pos, pptrs: acc })
    } else {
        match walk_node(pair.children[0], bytes, pos, big, scan, acc) {
            Err(e) => Err(e),
            Ok(k) => match walk_node(pair.children[1], bytes, k.end, big, scan, k.pptrs) {
                Err(e) => Err(e),
                Ok(v) => walk_pairs(pair, (count - 1) as nat, bytes, v.end, big, scan, v.pptrs),
            },
        }
    }
}

/// The walk over a whole object: from its first byte, with nothing met yet.
pub open spec fn walk(tree: TreeModel, bytes: Seq<u8>, big: bool, scan: bool) -> Result<
    Walked,
    WalkError,
> {
    walk_node(tree, bytes, 0, big, scan, Seq::empty())
}

/// The pointer stored at `pos`: four bytes of file id, then eight of path id.
pub open spec fn pptr_at(bytes: Seq<u8>, pos: int, big: bool) -> Pptr {
    Pptr { file_id: i32_at(bytes, pos, big) as i32, path_id: i64_at(bytes, pos + 4, big) as i64 }
}

/// Whether every position leaves room for a pointer.
pub open spec fn in_bounds(pptrs: Seq<usize>, len: nat) -> bool {
    forall|i: int| 0 <= i < pptrs.len() ==> #[trigger] pptrs[i] + 12 <= len
}

impl TypeTreeNode {
    /// Whether the cursor is padded to a multiple of four after this node.
    pub fn requires_align(&self) -> (r: bool)
        ensures
            r == aligns(self.meta_flag),
    {
        self.meta_flag & 0x4000 != 0
    }
}

/// The kind that a type name stands for.
pub fn classify(ty: &str) -> (k: NodeKind)
    ensures
        k == kind_of(ty@),
{
    if str_eq(ty, "bool") || str_eq(ty, "UInt8") || str_eq(ty, "SInt8") || str_eq(ty, "char") {
        NodeKind::Fixed(1)
    } else if str_eq(ty, "UInt16") || str_eq(ty, "unsigned short") || str_eq(ty, "SInt16")
        || str_eq(ty, "short") {
        NodeKind::Fixed(2)
    } else if str_eq(ty, "UInt32") || str_eq(ty, "unsigned int") || str_eq(ty, "Type*") || str_eq(
        ty,
        "SInt32",
    ) || str_eq(ty, "int") || str_eq(ty, "float") {
        NodeKind::Fixed(4)
    } else if str_eq(ty, "UInt64") || str_eq(ty, "unsigned long long") || str_eq(ty, "FileSize")
        || str_eq(ty, "SInt64") || str_eq(ty, "long long") || str_eq(ty, "double") {
        NodeKind::Fixed(8)
    } else if str_eq(ty, "string") {
        NodeKind::Text
    } else if str_eq(ty, "map") {
        NodeKind::Dictionary
    } else if str_eq(ty, "TypelessData") || str_eq(ty, "ReferencedObject") || str_eq(
        ty,
        "ReferencedObjectData",
    ) || str_eq(ty, "ManagedReferencesRegistry") {
        NodeKind::Opaque
    } else {
        NodeKind::Other
    }
}

/// Moves the cursor forward by `n` bytes and pads it if asked to.
fn step(pos: u64, n: u64, pad: bool) -> (r: Result<u64, WalkError>)
    ensures
        match settle(advance(pos as int, n as int), pad) {
            Ok(p) => r == Ok::<u64, WalkError>(p as u64) && 0 <= p <= u64::MAX,
            Err(e) => r == Err::<u64, WalkError>(e),
        },
{
    match pos.checked_add(n) {
        None => Err(WalkError::InvalidSeek),
        Some(p) => {
            if !pad {
                Ok(p)
            } else {
                let rem: u64 = p % 4;
                if rem == 0 {
                    Ok(p)
                } else {
                    match p.checked_add(4 - rem) {
                        None => Err(WalkError::InvalidSeek),
                        Some(q) => Ok(q),
                    }
                }
            }
        },
    }
}

/// Reads the count stored at the cursor.
fn read_count(data: &[u8], pos: u64, big: bool) -> (r: Result<u32, WalkError>)
    ensures
        match count_at(data@, pos as int, big) {
            Ok(n) => r == Ok::<u32, WalkError>(n as u32) && n <= u32::MAX,
            Err(e) => r == Err::<u32, WalkError>(e),
        },
        r is Ok ==> pos + 4 <= data@.len() <= usize::MAX,
{
    let len: usize = data.len();
    if len < 4 || pos > (len - 4) as u64 {
        Err(WalkError::UnexpectedEof)
    } else {
        Ok(read_u32(data, pos as usize, big))
    }
}

/// What `visit` and its parts promise: the result of the walk in the model.
pub open spec fn visit_meets(
    expected: Result<Walked, WalkError>,
    r: Result<u64, WalkError>,
    out: Seq<usize>,
    len: nat,
) -> bool {
    match expected {
        Ok(w) => {
            &&& r == Ok::<u64, WalkError>(w.end as u64)
            &&& 0 <= w.end <= u64::MAX
            &&& out == w.pptrs
            &&& in_bounds(out, len)
        },
        Err(e) => r == Err::<u64, WalkError>(e),
    }
}

/// Walks one node of an object's bytes.
///
/// The cursor starts at `pos`. The positions of the pointer fields that the
/// walk reports are appended to `out`, in the order in which they lie. A
/// scan (`scan` set) passes over the field named `m_Father`. The result is
/// the cursor after the node.
pub fn visit(
    node: &TypeTreeNode,
    data: &[u8],
    pos: u64,
    big: bool,
    scan: bool,
    out: &mut Vec<usize>,
) -> (r: Result<u64, WalkError>)
    requires
        in_bounds(old(out)@, data@.len()),
    ensures
        visit_meets(
            walk_node(node@, data@, pos as int, big, scan, old(out)@),
            r,
            final(out)@,
            data@.len(),
        ),
    decreases node, 1nat, 1nat,
{
    proof {
        lemma_view_unfold(node);
    }
    match classify(node.ty.as_str()) {
        NodeKind::Fixed(width) => step(pos, width, node.requires_align()),
        NodeKind::Text => {
            match read_count(data, pos, big) {
                Err(e) => Err(e),
                Ok(len) => step(pos + 4, len as u64, true),
            }
        },
        NodeKind::Dictionary => visit_map(node, data, pos, big, scan, out),
        NodeKind::Opaque => Err(WalkError::Unsupported),
        NodeKind::Other => visit_other(node, data, pos, big, scan, out),
    }
}

/// Walks a map node: the count, then the pairs.
fn visit_map(
    node: &TypeTreeNode,
    data: &[u8],
    pos: u64,
    big: bool,
    scan: bool,
    out: &mut Vec<usize>,
) -> (r: Result<u64, WalkError>)
    requires
        in_bounds(old(out)@, data@.len()),
        kind_of(node@.ty) == NodeKind::Dictionary,
    ensures
        visit_meets(
            walk_node(node@, data@, pos as int, big, scan, old(out)@),
            r,
            final(out)@,
            data@.len(),
        ),
    decreases node, 1nat, 0nat,
{
    proof {
        lemma_view_unfold(node);
    }
    match read_count(data, pos, big) {
        Err(e) => Err(e),
        Ok(count) => {
            if node.children.len() < 1 {
                return Err(WalkError::MalformedTree);
            }
            let array = &node.children[0];
            proof {
                lemma_view_unfold(array);
            }
            if array.children.len() < 2 {
                return Err(WalkError::MalformedTree);
            }
            let pair = &array.children[1];
            proof {
                lemma_view_unfold(pair);
            }
            if pair.children.len() < 2 {
                return Err(WalkError::MalformedTree);
            }
            match visit_pairs(pair, count, data, pos + 4, big, scan, out) {
                Err(e) => Err(e),
                Ok(end) => step(end, 0, node.requires_align() || pair.requires_align()),
            }
        },
    }
}

/// Walks a node that is an array, a pointer or a composite.
fn visit_other(
    node: &TypeTreeNode,
    data: &[u8],
    pos: u64,
    big: bool,
    scan: bool,
    out: &mut Vec<usize>,
) -> (r: Result<u64, WalkError>)
    requires
        in_bounds(old(out)@, data@.len()),
        kind_of(node@.ty) == NodeKind::Other,
    ensures
        visit_meets(
            walk_node(node@, data@, pos as int, big, scan, old(out)@),
            r,
            final(out)@,
            data@.len(),
        ),
    decreases node, 1nat, 0nat,
{
    proof {
        lemma_view_unfold(node);
        if node.children@.len() >= 1 {
            lemma_view_unfold(&node.children@[0]);
        }
    }
    if node.children.len() == 1 && str_eq(node.children[0].ty.as_str(), "Array") {
        let array = &node.children[0];
        if array.children.len() < 2 {
            return Err(WalkError::MalformedTree);
        }
        match read_count(data, pos, big) {
            Err(e) => Err(e),
            Ok(count) => {
                match visit_repeat(&array.children[1], count, data, pos + 4, big, scan, out) {
                    Err(e) => Err(e),
                    Ok(end) => step(end, 0, node.requires_align() || array.requires_align()),
                }
            },
        }
    } else if str_starts_with(node.ty.as_str(), "PPtr<") && !(scan && str_eq(
        node.name.as_str(),
        "m_Father",
    )) {
        let len: usize = data.len();
        if len < 12 || pos > (len - 12) as u64 {
            return Err(WalkError::UnexpectedEof);
        }
        out.push(pos as usize);
        step(pos + 12, 0, node.requires_align())
    } else {
        match visit_children(node, data, pos, big, scan, out) {
            Err(e) => Err(e),
            Ok(end) => step(end, 0, node.requires_align()),
        }
    }
}

/// Walks the children of `node` in order.
fn visit_children(
    node: &TypeTreeNode,
    data: &[u8],
    pos: u64,
    big: bool,
    scan: bool,
    out: &mut Vec<usize>,
) -> (r: Result<u64, WalkError>)
    requires
        in_bounds(old(out)@, data@.len()),
    ensures
        visit_meets(
            walk_children(node@, 0, data@, pos as int, big, scan, old(out)@),
            r,
            final(out)@,
            data@.len(),
        ),
    decreases node, 0nat, 0nat,
{
    let mut cur: u64 = pos;
    let mut i: usize = 0;
    while i < node.children.len()
        invariant
            i <= node.children.len(),
            in_bounds(out@, data@.len()),
            walk_children(node@, 0, data@, pos as int, big, scan, old(out)@) == walk_children(
                node@,
                i as int,
                data@,
                cur as int,
                big,
                scan,
                out@,
            ),
        decreases node.children.len() - i,
    {
        proof {
            lemma_view_unfold(node);
        }
        match visit(&node.children[i], data, cur, big, scan, out) {
            Err(e) => {
                return Err(e);
            },
            Ok(end) => {
                cur = end;
            },
        }
        i += 1;
    }
    proof {
        lemma_view_unfold(node);
    }
    Ok(cur)
}

/// Walks `count` items of the type `item`.
fn visit_repeat(
    item: &TypeTreeNode,
    count: u32,
    data: &[u8],
    pos: u64,
    big: bool,
    scan: bool,
    out: &mut Vec<usize>,
) -> (r: Result<u64, WalkError>)
    requires
        in_bounds(old(out)@, data@.len()),
    ensures
        visit_meets(
            walk_repeat(item@, count as nat, data@, pos as int, big, scan, old(out)@),
            r,
            final(out)@,
            data@.len(),
        ),
    decreases item, 2nat, 0nat,
{
    let mut cur: u64 = pos;
    let mut left: u32 = count;
    while left > 0
        invariant
            in_bounds(out@, data@.len()),
            left <= count,
            walk_repeat(item@, count as nat, data@, pos as int, big, scan, old(out)@)
                == walk_repeat(item@, left as nat, data@, cur as int, big, scan, out@),
        decreases left,
    {
        match visit(item, data, cur, big, scan, out) {
            Err(e) => {
                return Err(e);
            },
            Ok(end) => {
                cur = end;
            },
        }
        left -= 1;
    }
    Ok(cur)
}

/// Walks `count` pairs of a key and a value.
fn visit_pairs(
    pair: &TypeTreeNode,
    count: u32,
    data: &[u8],
    pos: u64,
    big: bool,
    scan: bool,
    out: &mut Vec<usize>,
) -> (r: Result<u64, WalkError>)
    requires
        in_bounds(old(out)@, data@.len()),
        pair.children@.len() >= 2,
    ensures
        visit_meets(
            walk_pairs(pair@, count as nat, data@, pos as int, big, scan, old(out)@),
            r,
            final(out)@,
            data@.len(),
        ),
    decreases pair, 2nat, 0nat,
{
    let mut cur: u64 = pos;
    let mut left: u32 = count;
    while left > 0
        invariant
            in_bounds(out@, data@.len()),
            left <= count,
            pair.children@.len() >= 2,
            walk_pairs(pair@, count as nat, data@, pos as int, big, scan, old(out)@) == walk_pairs(
                pair@,
                left as nat,
                data@,
                cur as int,
                big,
                scan,
                out@,
            ),
        decreases left,
    {
        proof {
            lemma_view_unfold(pair);
        }
        match visit(&pair.children[0], data, cur, big, scan, out) {
            Err(e) => {
                return Err(e);
            },
            Ok(end) => {
                cur = end;
            },
        }
        match visit(&pair.children[1], data, cur, big, scan, out) {
            Err(e) => {
                return Err(e);
            },
            Ok(end) => {
                cur = end;
            },
        }
        left -= 1;
    }
    proof {
        lemma_view_unfold(pair);
    }
    Ok(cur)
}

/// The byte order of a serialized file.
#[derive(Clone, Copy, Debug, PartialEq, Eq, Structural)]
pub enum Endianness {
    Little,
    Big,
}

impl Endianness {
    pub open spec fn spec_is_big(self) -> bool {
        self == Endianness::Big
    }

    #[verifier::when_used_as_spec(spec_is_big)]
    pub fn is_big(self) -> (r: bool)
        ensures
            r == self.spec_is_big(),
    {
        match self {
            Endianness::Little => false,
            Endianness::Big => true,
        }
    }
}

/// The pointers that are not null among the first `n` positions.
pub open spec fn pointers_among(bytes: Seq<u8>, pptrs: Seq<usize>, n: int, big: bool) -> Seq<Pptr>
    decreases n,
{
    if n <= 0 {
        Seq::empty()
    } else {
        let before = pointers_among(bytes, pptrs, n - 1, big);
        let p = pptr_at(bytes, pptrs[n - 1] as int, big);
        if p.spec_is_null() {
            before
        } else {
            before.push(p)
        }
    }
}

/// What a scan of an object yields: the pointers that are not null, in the
/// order in which they lie, but for the field named `m_Father`.
pub open spec fn traced(tree: TreeModel, bytes: Seq<u8>, big: bool) -> Result<
    Seq<Pptr>,
    WalkError,
> {
    match walk(tree, bytes, big, true) {
        Ok(w) => Ok(pointers_among(bytes, w.pptrs, w.pptrs.len() as int, big)),
        Err(e) => Err(e),
    }
}

/// The bytes after the pointer at `pos` has been remapped: a local pointer
/// gets the new path id of its target, a pointer into another file the new
/// file id, each only where the maps name one; a null pointer stays.
pub open spec fn patch_one(
    bytes: Seq<u8>,
    pos: int,
    paths: Map<i64, i64>,
    files: Map<i32, i32>,
    big: bool,
) -> Seq<u8> {
    let p = pptr_at(bytes, pos, big);
    if p.spec_is_null() {
        bytes
    } else if p.file_id == 0 {
        if paths.contains_key(p.path_id) {
            with_i64(bytes, pos + 4, paths[p.path_id] as int, big)
        } else {
            bytes
        }
    } else if files.contains_key(p.file_id) {
        with_i32(bytes, pos, files[p.file_id] as int, big)
    } else {
        bytes
    }
}

/// The bytes after the pointers at the first `n` positions have been remapped.
pub open spec fn patch_upto(
    bytes: Seq<u8>,
    pptrs: Seq<usize>,
    n: int,
    paths: Map<i64, i64>,
    files: Map<i32, i32>,
    big: bool,
) -> Seq<u8>
    decreases n,
{
    if n <= 0 {
        bytes
    } else {
        patch_one(patch_upto(bytes, pptrs, n - 1, paths, files, big), pptrs[n - 1] as int, paths, files, big)
    }
}

/// What a rewrite of an object yields: its bytes with every pointer field
/// remapped.
pub open spec fn replaced(
    tree: TreeModel,
    bytes: Seq<u8>,
    paths: Map<i64, i64>,
    files: Map<i32, i32>,
    big: bool,
) -> Result<Seq<u8>, WalkError> {
    match walk(tree, bytes, big, false) {
        Ok(w) => Ok(patch_upto(bytes, w.pptrs, w.pptrs.len() as int, paths, files, big)),
        Err(e) => Err(e),
    }
}

/// Remapping a pointer keeps the length of the bytes.
pub proof fn lemma_patch_one_len(
    bytes: Seq<u8>,
    pos: int,
    paths: Map<i64, i64>,
    files: Map<i32, i32>,
    big: bool,
)
    requires
        0 <= pos,
        pos + 12 <= bytes.len(),
    ensures
        patch_one(bytes, pos, paths, files, big).len() == bytes.len(),
{
    let p = pptr_at(bytes, pos, big);
    if paths.contains_key(p.path_id) {
        lemma_uint_bytes_len(pattern64(paths[p.path_id] as int), 8, big);
    }
    if files.contains_key(p.file_id) {
        lemma_uint_bytes_len(pattern32(files[p.file_id] as int), 4, big);
    }
}

/// Reads the pointer stored at `pos`.
pub fn read_pptr(data: &[u8], pos: usize, big: bool) -> (p: Pptr)
    requires
        pos + 12 <= data@.len(),
    ensures
        p == pptr_at(data@, pos as int, big),
{
    assert(data@.len() == data.len());
    let file_id = read_i32(data, pos, big);
    let path_id = read_i64(data, pos + 4, big);
    Pptr { file_id, path_id }
}

/// Scans an object for the pointers it holds.
///
/// `data` holds the object's bytes from its first one. The result lists
/// every pointer that is not null, in the order of the fields; the field
/// named `m_Father` is passed over.
pub fn trace_pptrs(tt: &TypeTreeNode, data: &[u8], endianness: Endianness) -> (r: Result<
    Vec<Pptr>,
    WalkError,
>)
    ensures
        match traced(tt@, data@, endianness.spec_is_big()) {
            Ok(found) => r is Ok && r->Ok_0@ == found,
            Err(e) => r == Err::<Vec<Pptr>, WalkError>(e),
        },
{
    let big = endianness.is_big();
    let mut positions: Vec<usize> = Vec::new();
    match visit(tt, data, 0, big, true, &mut positions) {
        Err(e) => Err(e),
        Ok(_) => {
            let mut pptrs: Vec<Pptr> = Vec::new();
            let mut i: usize = 0;
            while i < positions.len()
                invariant
                    i <= positions.len(),
                    in_bounds(positions@, data@.len()),
                    pptrs@ == pointers_among(data@, positions@, i as int, big),
                decreases positions.len() - i,
            {
                let p = read_pptr(data, positions[i], big);
                if !p.is_null() {
                    pptrs.push(p);
                }
                i += 1;
            }
            Ok(pptrs)
        },
    }
}

/// Remaps the pointers of an object in place.
///
/// `value` holds the object's bytes from its first one. Every pointer field
/// that is not null is patched: a local pointer gets the path id that
/// `path_id_remap` gives for its target, a pointer into another file the
/// file id that `file_id_remap` gives for its file; where the map has no
/// entry the field stays. On an error nothing is changed.
pub fn replace_pptrs_inplace(
    value: &mut Vec<u8>,
    ty: &TypeTreeNode,
    path_id_remap: &FxHashMap<i64, i64>,
    file_id_remap: &FxHashMap<i32, i32>,
    big: bool,
) -> (r: Result<(), WalkError>)
    ensures
        match replaced(ty@, old(value)@, path_id_remap@, file_id_remap@, big) {
            Ok(bytes) => r is Ok && final(value)@ == bytes,
            Err(e) => r == Err::<(), WalkError>(e) && final(value)@ == old(value)@,
        },
{
    broadcast use vstd::std_specs::hash::group_hash_axioms;

    let mut positions: Vec<usize> = Vec::new();
    match visit(ty, value.as_slice(), 0, big, false, &mut positions) {
        Err(e) => Err(e),
        Ok(_) => {
            let mut i: usize = 0;
            while i < positions.len()
                invariant
                    i <= positions.len(),
                    obeys_key_model::<i64>(),
                    obeys_key_model::<i32>(),
                    value@.len() == old(value)@.len(),
                    in_bounds(positions@, value@.len()),
                    value@ == patch_upto(
                        old(value)@,
                        positions@,
                        i as int,
                        path_id_remap@,
                        file_id_remap@,
                        big,
                    ),
                decreases positions.len() - i,
            {
                let pos = positions[i];
                assert(value@.len() == value.len());
                proof {
                    lemma_patch_one_len(value@, pos as int, path_id_remap@, file_id_remap@, big);
                }
                let p = read_pptr(value.as_slice(), pos, big);
                if p.is_null() {
                } else if p.file_id == 0 {
                    match fx_get(path_id_remap, &p.path_id) {
                        Some(replacement) => {
                            write_i64(value, pos + 4, *replacement, big);
                        },
                        None => {},
                    }
                } else {
                    match fx_get(file_id_remap, &p.file_id) {
                        Some(replacement) => {
                            write_i32(value, pos, *replacement, big);
                        },
                        None => {},
                    }
                }
                i += 1;
            }
            Ok(())
        },
    }
}

/// Remaps the pointers of an object in place, in the byte order of the file
/// that holds it.
pub fn replace_pptrs_inplace_endianed(
    value: &mut Vec<u8>,
    ty: &TypeTreeNode,
    path_id_remap: &FxHashMap<i64, i64>,
    file_id_remap: &FxHashMap<i32, i32>,
    endianness: Endianness,
) -> (r: Result<(), WalkError>)
    ensures
        match replaced(
            ty@,
            old(value)@,
            path_id_remap@,
            file_id_remap@,
            endianness.spec_is_big(),
        ) {
            Ok(bytes) => r is Ok && final(value)@ == bytes,
            Err(e) => r == Err::<(), WalkError>(e) && final(value)@ == old(value)@,
        },
{
    match endianness {
        Endianness::Little => replace_pptrs_inplace(value, ty, path_id_remap, file_id_remap, false),
        Endianness::Big => replace_pptrs_inplace(value, ty, path_id_remap, file_id_remap, true),
    }
}

/// With no remapping asked for, a rewrite leaves the bytes as they are.
pub proof fn lemma_patch_nothing(bytes: Seq<u8>, pptrs: Seq<usize>, n: int, big: bool)
    ensures
        patch_upto(bytes, pptrs, n, Map::empty(), Map::empty(), big) == bytes,
    decreases n,
{
    if n > 0 {
        lemma_patch_nothing(bytes, pptrs, n - 1, big);
    }
}

/// A rewrite with empty maps leaves every byte of the object unchanged.
pub proof fn law_rewrite_with_empty_remaps(tree: TreeModel, bytes: Seq<u8>, big: bool)
    ensures
        match replaced(tree, bytes, Map::empty(), Map::empty(), big) {
            Ok(after) => after == bytes,
            Err(_) => true,
        },
{
    match walk(tree, bytes, big, false) {
        Ok(w) => lemma_patch_nothing(bytes, w.pptrs, w.pptrs.len() as int, big),
        Err(_) => {},
    }
}

/// A padded cursor is a multiple of four and not before the cursor given.
pub proof fn lemma_settle(pos: int, pad: bool)
    requires
        settle(Ok(pos), pad) is Ok,
    ensures
        settle(Ok(pos), pad)->Ok_0 >= pos,
        pad ==> settle(Ok(pos), pad)->Ok_0 % 4 == 0,
{
}

/// After a node that asks for padding, and after every string, the cursor
/// is a multiple of four.
pub proof fn law_cursor_aligned(
    node: TreeModel,
    bytes: Seq<u8>,
    pos: int,
    big: bool,
    scan: bool,
    acc: Seq<usize>,
)
    requires
        walk_node(node, bytes, pos, big, scan, acc) is Ok,
        aligns(node.meta_flag) || kind_of(node.ty) == NodeKind::Text,
    ensures
        walk_node(node, bytes, pos, big, scan, acc)->Ok_0.end % 4 == 0,
{
    let end = walk_node(node, bytes, pos, big, scan, acc)->Ok_0.end;
    match kind_of(node.ty) {
        NodeKind::Fixed(width) => {
            lemma_settle(pos + width as int, true);
        },
        NodeKind::Text => {
            let len = count_at(bytes, pos, big)->Ok_0;
            lemma_settle(pos + 4 + len as int, true);
        },
        NodeKind::Dictionary => {
            let count = count_at(bytes, pos, big)->Ok_0;
            let pair = node.children[0].children[1];
            let w = walk_pairs(pair, count, bytes, pos + 4, big, scan, acc)->Ok_0;
            lemma_settle(w.end, true);
        },
        NodeKind::Opaque => {},
        NodeKind::Other => {
            if array_shaped(node) {
                let array = node.children[0];
                let count = count_at(bytes, pos, big)->Ok_0;
                let w = walk_repeat(array.children[1], count, bytes, pos + 4, big, scan, acc)->Ok_0;
                lemma_settle(w.end, true);
            } else if visits(node, scan) {
                lemma_settle(pos + 12, true);
            } else {
                let w = walk_children(node, 0, bytes, pos, big, scan, acc)->Ok_0;
                lemma_settle(w.end, true);
            }
        },
    }
}

} // verus!
