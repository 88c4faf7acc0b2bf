//! Verified core of a command-line client that streams a media file out of a
//! torrent into a video player.

pub mod bignum;
pub mod binary64;
pub mod cli;
pub mod file_select;
pub mod messages;
pub mod natural;
pub mod numbers;
pub mod paths;
pub mod platform;
pub mod player;
pub mod runtime;
pub mod session;
pub mod size;
pub mod stream;
pub mod text;
pub mod token;
pub mod torrent;
