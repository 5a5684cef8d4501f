//! Scene assets resolved from a document.
pub mod mesh;
