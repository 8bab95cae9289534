//! Core library of a desktop video player backend.
//!
//! The library holds the verified logic of the player: path handling and
//! media-type recognition, the deferred file-handoff queue with its retry
//! schedule, SRT subtitle rendering and parsing, WAV sample decoding, the
//! compact window-mode state machine, the watch-progress store, the
//! recent-media selection, and the decision rules of the model downloader.
//! The surrounding process (window system, file system, network, speech
//! model) is driven by a thin unverified shell that hands this library plain
//! values and carries its answers back out.

pub mod download;
pub mod ffmpeg;
pub mod handoff;
pub mod media;
pub mod paths;
pub mod pipeline;
pub mod progress;
pub mod scanner;
pub mod srt;
pub mod text;
pub mod wav;
pub mod window;

pub use text::sanitize_path;
