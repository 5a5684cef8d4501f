//! What is handed to a graphics device: flat triangle lists, and the order
//! in which to draw the node hierarchy.
pub mod cycles;
pub mod flat_shaded;
pub mod traversal;
