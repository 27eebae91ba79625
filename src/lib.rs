//! Turns a filtered directory walk into an ASCII tree listing and the plan of
//! a zip archive that reproduces it.
pub mod path;
pub mod tree;
pub mod render;
pub mod collect;
pub mod archive;
pub mod digest;
pub mod timestamp;
pub mod config;
