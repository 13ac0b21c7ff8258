//! The logic of a running session: keys, windows, requests and screens.

pub mod actions;
pub mod args;
pub mod desk;
pub mod effects;
pub mod input;
pub mod launch;
pub mod layers;
pub mod pending;
pub mod placing;
pub mod requests;
pub mod screens;
pub mod settings;
pub mod system;
