//! The ways in which repacking fails.

use crate::pptr::PathId;
use crate::walker::WalkError;
use vstd::prelude::*;

verus! {

/// Why an operation of the repacker failed.
#[derive(Clone, Copy, Debug, PartialEq, Eq, Structural)]
pub enum RepackError {
    /// A file that is needed is absent.
    NotFound,
    /// A serialized file or an object in it could not be decoded.
    Parse,
    /// No type tree is known for the class with this id.
    MissingType(i32),
    /// The path id is referred to but absent from its file.
    MissingObject(PathId),
    /// The file uses a variant of the format that is not handled.
    UnsupportedFeature,
    /// What was given is not as the steps before leave it, or a limit of the
    /// output format would be exceeded.
    Internal,
}

impl RepackError {
    /// The failure of a walk as a failure of repacking.
    pub open spec fn spec_from_walk(e: WalkError) -> RepackError {
        match e {
            WalkError::Unsupported => RepackError::UnsupportedFeature,
            WalkError::UnexpectedEof => RepackError::Parse,
            WalkError::InvalidSeek => RepackError::Parse,
            WalkError::MalformedTree => RepackError::Parse,
        }
    }

    /// The failure of a walk as a failure of repacking.
    #[verifier::when_used_as_spec(spec_from_walk)]
    pub fn from_walk(e: WalkError) -> (r: RepackError)
        ensures
            r == Self::spec_from_walk(e),
    {
        match e {
            WalkError::Unsupported => RepackError::UnsupportedFeature,
            WalkError::UnexpectedEof => RepackError::Parse,
            WalkError::InvalidSeek => RepackError::Parse,
            WalkError::MalformedTree => RepackError::Parse,
        }
    }
}

} // verus!
