//! The video player.

pub mod vlc;
