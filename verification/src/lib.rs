//! Verified core of a documentation server for published Rust crates.

pub mod text;
pub mod url;
pub mod registry;
pub mod model;
pub mod render;
pub mod query;
pub mod archive;
pub mod cache;
pub mod tools;
