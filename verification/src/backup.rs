//! The snapshot engine: index, catalog, creation, retention and restore, all
//! on an in-memory picture of a save directory.

pub mod cleanup;
pub mod common;
pub mod create;
pub mod data;
pub mod first;
pub mod hashing;
pub mod index;
pub mod listing;
pub mod notes;
pub mod restore;
pub mod retention;
pub mod tree;
