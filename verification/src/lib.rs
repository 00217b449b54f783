//! Decoder for the FBX binary scene container.
//!
//! The decoder validates the fixed header, reads the recursive tree of
//! named node records with exact offset and length cross-checks, decodes
//! typed properties (scalars, strings, raw blobs, and typed arrays with an
//! optional zlib-compressed encoding), and finally walks the tree to build
//! a scene graph of meshes (vertex positions and polygon face loops).
//!
//! Floating-point fields of the container are carried as their IEEE-754
//! bit patterns; turning them into machine floats is left to callers.

pub mod fbx;
pub mod scene;
