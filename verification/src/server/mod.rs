//! Decisions of the HTTP server: GPU selection, release checks and
//! server configuration.

pub mod gpu;
pub mod config;
pub mod updater;
pub mod probe;
pub mod progress;
