//! Scene-graph construction and geometry processing for a small real-time
//! renderer.
//!
//! The crate turns a glTF-style document (nodes, meshes, accessors, buffer
//! views and base64 data-URI buffers) into flat, device-agnostic triangle
//! lists with per-corner normals, and orders the node hierarchy for drawing.
//!
//! Every real-valued quantity (a position, a colour, a matrix entry) is
//! carried as the 32-bit pattern of its IEEE-754 binary32 encoding.  The
//! library moves, groups and decodes those patterns exactly; arithmetic on
//! them is left to the caller.
pub mod asset;
pub mod beagle_math;
pub mod error;
pub mod gltf;
pub mod gltf2;
pub mod renderable;
pub mod shared;
pub mod window;
