//! Tiling: the split tree of a workspace and the rectangles it produces.

pub mod effects;
pub mod geometry;
pub mod laws;
pub mod tree;
