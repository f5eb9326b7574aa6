//! The parts of a path that is written with slashes.

use vstd::prelude::*;
use vstd::string::StrSliceExecFns;

verus! {

/// The position of the last `c` among the first `n` characters, if there is one.
pub open spec fn last_position(s: Seq<char>, c: char, n: int) -> Option<int>
    decreases n,
{
    if n <= 0 {
        None
    } else if s[n - 1] == c {
        Some(n - 1)
    } else {
        last_position(s, c, n - 1)
    }
}

/// The last component of a path: what stands behind the last slash.
pub open spec fn file_name_of(path: Seq<char>) -> Seq<char> {
    match last_position(path, '/', path.len() as int) {
        Some(i) => path.subrange(i + 1, path.len() as int),
        None => path,
    }
}

/// A file name without its extension: what stands before the last dot,
/// unless there is no dot or the only dot comes first.
pub open spec fn stem_of(name: Seq<char>) -> Seq<char> {
    match last_position(name, '.', name.len() as int) {
        Some(i) => if i == 0 {
            name
        } else {
            name.subrange(0, i)
        },
        None => name,
    }
}

/// The extension of a file name: what stands behind the last dot, unless
/// there is no dot or the only dot comes first.
pub open spec fn extension_of(name: Seq<char>) -> Option<Seq<char>> {
    match last_position(name, '.', name.len() as int) {
        Some(i) => if i == 0 {
            None
        } else {
            Some(name.subrange(i + 1, name.len() as int))
        },
        None => None,
    }
}

/// Finds the last `c` in the text.
pub fn find_last(s: &str, c: char) -> (r: Option<usize>)
    ensures
        match r {
            Some(i) => last_position(s@, c, s@.len() as int) == Some(i as int) && i < s@.len(),
            None => last_position(s@, c, s@.len() as int) is None,
        },
{
    let len: usize = s.unicode_len();
    let mut n: usize = len;
    while n > 0
        invariant
            n <= len,
            len == s@.len(),
            last_position(s@, c, len as int) == last_position(s@, c, n as int),
        decreases n,
    {
        if s.get_char(n - 1) == c {
            return Some(n - 1);
        }
        n -= 1;
    }
    None
}

/// The last component of a path.
pub fn file_name<'a>(path: &'a str) -> (r: &'a str)
    ensures
        r@ == file_name_of(path@),
{
    match find_last(path, '/') {
        Some(i) => {
            let len: usize = path.unicode_len();
            path.substring_char(i + 1, len)
        },
        None => path,
    }
}

/// A file name without its extension.
pub fn file_stem<'a>(name: &'a str) -> (r: &'a str)
    ensures
        r@ == stem_of(name@),
{
    match find_last(name, '.') {
        Some(i) => if i == 0 {
            name
        } else {
            name.substring_char(0, i)
        },
        None => name,
    }
}

/// The extension of a file name.
pub fn extension<'a>(name: &'a str) -> (r: Option<&'a str>)
    ensures
        match r {
            Some(e) => extension_of(name@) == Some(e@),
            None => extension_of(name@) is None,
        },
{
    match find_last(name, '.') {
        Some(i) => if i == 0 {
            None
        } else {
            let len: usize = name.unicode_len();
            Some(name.substring_char(i + 1, len))
        },
        None => None,
    }
}

} // verus!
