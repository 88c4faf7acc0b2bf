//! Serving a file of a torrent to a player.

pub mod prefetch;
pub mod ranges;
pub mod server;
pub mod transfer;
