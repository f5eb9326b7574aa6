//! Pointers between serialized objects.

use vstd::prelude::*;

verus! {

/// Identifies an object inside one serialized file.
pub type PathId = i64;

/// Selects a file: 0 is the file that holds the pointer, `n > 0` the
/// `n`-th entry of that file's externals.
pub type FileId = i32;

/// A reference to an object: the file that holds it and its id there.
#[derive(Clone, Copy, Debug, PartialEq, Eq, Structural, Hash)]
pub struct Pptr {
    pub file_id: FileId,
    pub path_id: PathId,
}

impl Pptr {
    pub open spec fn spec_is_null(self) -> bool {
        self.file_id == 0 && self.path_id == 0
    }

    pub open spec fn spec_is_local(self) -> bool {
        self.file_id == 0
    }

    pub fn new(file_id: FileId, path_id: PathId) -> (p: Pptr)
        ensures
            p == (Pptr { file_id, path_id }),
    {
        Pptr { file_id, path_id }
    }

    /// A pointer into the file that holds it.
    pub fn local(path_id: PathId) -> (p: Pptr)
        ensures
            p == (Pptr { file_id: 0, path_id }),
    {
        Pptr { file_id: 0, path_id }
    }

    /// The pointer that refers to nothing.
    pub fn null() -> (p: Pptr)
        ensures
            p == (Pptr { file_id: 0, path_id: 0 }),
            p.spec_is_null(),
    {
        Pptr { file_id: 0, path_id: 0 }
    }

    #[verifier::when_used_as_spec(spec_is_null)]
    pub fn is_null(self) -> (r: bool)
        ensures
            r == self.spec_is_null(),
    {
        self.file_id == 0 && self.path_id == 0
    }

    #[verifier::when_used_as_spec(spec_is_local)]
    pub fn is_local(self) -> (r: bool)
        ensures
            r == self.spec_is_local(),
    {
        self.file_id == 0
    }

    /// `Some` of the pointer unless it is null.
    pub fn optional(self) -> (r: Option<Pptr>)
        ensures
            r == (if self.spec_is_null() {
                None
            } else {
                Some(self)
            }),
    {
        if self.is_null() {
            None
        } else {
            Some(self)
        }
    }
}

} // verus!
