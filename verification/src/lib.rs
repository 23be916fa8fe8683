//! Flattens a multi-file Rust project into a single self-contained script.

pub mod flatten;
pub mod lines;
pub mod manifest;
pub mod normalize;
pub mod script;
pub mod text;
pub mod tree;
