//! Vapor Music's library: the parts of the player that decide things.

pub mod audio_window;
pub mod clock;
pub mod entities;
pub mod json;
pub mod local;
pub mod lookup;
pub mod media;
pub mod metadata;
pub mod paths;
pub mod peers;
pub mod recordings;
pub mod remote_source;
pub mod retry;
pub mod shell;
pub mod shelves;
pub mod sorting;
pub mod text;
