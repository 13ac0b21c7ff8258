//! A character grid, and how it becomes pixels.

pub mod backend;
pub mod boxdraw;
pub mod color;
pub mod effects;
pub mod font;
pub mod grid;
pub mod paint;
