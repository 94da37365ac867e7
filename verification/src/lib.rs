//! Synchronised lyrics for a desktop overlay: timed lyrics in LRC form, their
//! lookup at lrclib.net, the playback position reported by a music player, and
//! the pixels that show the current line.

pub mod canvas;
pub mod fetch;
pub mod lrc;
pub mod lrclib;
pub mod number;
pub mod overlay;
pub mod playback;
pub mod settings;
pub mod sync;
pub mod text;
