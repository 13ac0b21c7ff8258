//! Settings: what exists, what it may hold, and how it is read and written.

pub mod acceptance;
pub mod binding;
pub mod builtin;
pub mod command;
pub mod document;
pub mod expr;
pub mod fields;
pub mod menus;
pub mod paths;
pub mod schema;
pub mod scripts;
pub mod values;
