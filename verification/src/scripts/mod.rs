//! User scripts: finding them, running them, and remembering what they said.

pub mod discover;
pub mod list;
pub mod output;
