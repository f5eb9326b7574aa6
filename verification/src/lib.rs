//! The core of a repacker for the serialized files of the Unity engine.
//!
//! Given the scenes of a game and a selection of objects by their place in
//! the hierarchy, the library decides which objects are kept, rewrites the
//! pointers between them, and plans the contents of a bundle that holds
//! them. Reading the files of the game and writing the bundle is left to
//! the program around the library.

pub mod cli;
pub mod container;
pub mod endian;
pub mod env;
pub mod error;
pub mod fxmap;
pub mod hierarchy;
pub mod idset;
pub mod merge_laws;
pub mod merge_serialized;
pub mod monobehaviour_typetree_export;
pub mod naming;
pub mod paths;
pub mod pptr;
pub mod prune;
pub mod reachable;
pub mod repack;
pub mod scene_lookup;
pub mod serialized;
pub mod text;
pub mod typetree;
pub mod typetree_cache;
pub mod typetree_generator_api;
pub mod typetree_generator_cache;
pub mod unity_types;
pub mod walker;
pub mod walker_laws;
