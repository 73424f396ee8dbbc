//! Chunk-granular software distribution: the manifest codec, the
//! content-addressed chunk store rules and the generation bookkeeping that a
//! packager, an updater and a rollback tool share.

pub mod text;
pub mod fields;
pub mod lines;
pub mod decimal;
pub mod types;
pub mod chunks;
pub mod headers;
pub mod manifest;
pub mod encode;
pub mod utils;
pub mod generations;
pub mod store;
pub mod tree;
pub mod install;
pub mod rollback;
pub mod updater;
pub mod packager;

pub use crate::types::Compression;
