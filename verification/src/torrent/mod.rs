//! Torrent contents: the file and piece layout, the storage quota and engine metadata.

pub mod engine;
pub mod layout;
pub mod quota;
