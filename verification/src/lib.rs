//! Verified core of a runtime that lets agents play non-realtime games through
//! visual observations and player-equivalent inputs.

pub mod duration;
pub mod model;
pub mod policy;
pub mod metric;
pub mod quiescence;
pub mod keys;
pub mod text;
pub mod window;
pub mod input;
pub mod bridge;
pub mod image;
pub mod runner;
pub mod actions;
