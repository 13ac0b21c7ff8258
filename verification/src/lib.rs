//! Tessera: a tiling window manager whose layout, settings, drawing and session logic are
//! verified.

pub mod cells;
pub mod config;
pub mod ipc;
pub mod layout;
pub mod scripts;
pub mod session;
pub mod text;
