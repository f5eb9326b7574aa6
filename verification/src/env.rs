//! Which of the files of a game are serialized files, and where a packed
//! game keeps what it streams.

use crate::naming::{level_index, level_index_of};
use crate::paths::{extension, extension_of, file_name, file_name_of};
use crate::text::{str_eq, str_starts_with};
use vstd::prelude::*;
use vstd::string::{StrSliceExecFns, StringExecFns};

verus! {

/// Whether the file at the path is a serialized file: a level, a file with
/// the extension `assets`, or the global game managers.
pub open spec fn serialized_path(path: Seq<char>) -> bool {
    let name = file_name_of(path);
    level_index_of(name) is Some || extension_of(name) == Some("assets"@) || name
        == "globalgamemanagers"@
}

/// Those of the first `n` paths that lead to serialized files.
pub open spec fn serialized_among(paths: Seq<String>, n: int) -> Seq<String>
    decreases n,
{
    if n <= 0 {
        Seq::empty()
    } else if serialized_path(paths[n - 1]@) {
        serialized_among(paths, n - 1).push(paths[n - 1])
    } else {
        serialized_among(paths, n - 1)
    }
}

/// The indices of the levels among the first `n` paths.
pub open spec fn levels_among(paths: Seq<String>, n: int) -> Seq<usize>
    decreases n,
{
    if n <= 0 {
        Seq::empty()
    } else {
        match level_index_of(file_name_of(paths[n - 1]@)) {
            Some(index) => levels_among(paths, n - 1).push(index),
            None => levels_among(paths, n - 1),
        }
    }
}

/// Tests whether the file at the path is a serialized file.
pub fn is_serialized_file(path: &str) -> (r: bool)
    ensures
        r == serialized_path(path@),
{
    let name = file_name(path);
    if level_index(name).is_some() {
        return true;
    }
    let by_extension = match extension(name) {
        Some(e) => str_eq(e, "assets"),
        None => false,
    };
    by_extension || str_eq(name, "globalgamemanagers")
}

/// Picks the serialized files among the files of a game.
pub fn serialized_files(all_files: &Vec<String>) -> (r: Vec<String>)
    ensures
        r@ == serialized_among(all_files@, all_files@.len() as int),
{
    let mut out: Vec<String> = Vec::new();
    let mut n: usize = 0;
    while n < all_files.len()
        invariant
            n <= all_files.len(),
            out@ == serialized_among(all_files@, n as int),
        decreases all_files.len() - n,
    {
        if is_serialized_file(all_files[n].as_str()) {
            out.push(all_files[n].clone());
        }
        n += 1;
    }
    out
}

/// Lists the indices of the levels among the files of a game.
pub fn level_files(all_files: &Vec<String>) -> (r: Vec<usize>)
    ensures
        r@ == levels_among(all_files@, all_files@.len() as int),
{
    let mut out: Vec<usize> = Vec::new();
    let mut n: usize = 0;
    while n < all_files.len()
        invariant
            n <= all_files.len(),
            out@ == levels_among(all_files@, n as int),
        decreases all_files.len() - n,
    {
        match level_index(file_name(all_files[n].as_str())) {
            Some(index) => {
                out.push(index);
            },
            None => {},
        }
        n += 1;
    }
    out
}

/// Where a packed game keeps a streamed file on disk: a path below
/// `Library` is looked for below `Resources` first.
pub open spec fn resource_path_of(path: Seq<char>) -> Option<Seq<char>> {
    if "Library/"@.is_prefix_of(path) {
        Some("Resources/"@ + path.subrange("Library/"@.len() as int, path.len() as int))
    } else {
        None
    }
}

/// The path below `Resources` that is tried before the bundle, for a path
/// below `Library`.
pub fn resource_fallback(path: &str) -> (r: Option<String>)
    ensures
        match r {
            Some(p) => resource_path_of(path@) == Some(p@),
            None => resource_path_of(path@) is None,
        },
{
    proof {
        reveal_strlit("Library/");
    }
    if str_starts_with(path, "Library/") {
        let len: usize = path.unicode_len();
        Some(String::from_str("Resources/").concat(path.substring_char(8, len)))
    } else {
        None
    }
}

} // verus!
