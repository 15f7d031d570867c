//! Locating build-output directories and deciding how each one is locked,
//! listed and handed to a compressor.

pub mod text;
pub mod dirset;
pub mod profiles;
pub mod discover;
pub mod flock;
pub mod process;
pub mod config;
pub mod progress;
pub mod cli;
