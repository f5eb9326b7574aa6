//! The choices that a caller makes about the output.

use vstd::prelude::*;

verus! {

/// What kind of bundle to build.
#[derive(Clone, Copy, Debug, PartialEq, Eq, Structural)]
pub enum Mode {
    /// A bundle of whole scenes, cut down to the selection.
    Scene,
    /// A bundle of single objects, copied from the scenes.
    Asset,
    /// A bundle of single objects that only points into the files of the game.
    AssetShallow,
}

impl Mode {
    /// Whether the type trees of user scripts are needed.
    pub fn needs_typetree_generator(&self) -> (r: bool)
        ensures
            r == (*self == Mode::Asset),
    {
        match self {
            Mode::Asset => true,
            Mode::Scene => false,
            Mode::AssetShallow => false,
        }
    }
}

/// How the bundle is compressed.
#[derive(Clone, Copy, Debug, PartialEq, Eq, Structural)]
pub enum Compression {
    Uncompressed,
    Lzma,
    /// The best compression at the cost of speed.
    Lz4hc,
}

impl Compression {
    /// The number that the bundle format has for the compression.
    pub fn code(&self) -> (r: u32)
        ensures
            r == (match *self {
                Compression::Uncompressed => 0u32,
                Compression::Lzma => 1u32,
                Compression::Lz4hc => 3u32,
            }),
    {
        match self {
            Compression::Uncompressed => 0,
            Compression::Lzma => 1,
            Compression::Lz4hc => 3,
        }
    }
}

} // verus!
