//! A layered keyboard remapping engine.
//!
//! The engine consumes raw key events of one keyboard and produces the key
//! events of a synthetic keyboard, following a configuration of simple
//! (always-on) remaps and modifier-conditional layers.

pub mod event;
pub mod store;
pub mod layers;
pub mod engine;
pub mod laws;
pub mod config;
pub mod keycodes;
pub mod script;
pub mod devices;
