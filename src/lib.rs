//! Turns still images and videos into cached, replayable ASCII-art frames.
//!
//! The verified part of the crate covers the geometry of the GPU pipeline
//! (tile selection, buffer alignment, dispatch sizes), the line-oriented
//! cache format with its encoder and decoder, and the playback decisions,
//! together with the smaller pieces around them: reading the media's size,
//! choosing the cache file, the system-information layout and the help
//! catalog.

pub mod align;
pub mod tile;
pub mod layout;
pub mod text;
pub mod codec;
pub mod term;
pub mod playback;
pub mod roundtrip;
pub mod probe;
pub mod bench;
pub mod info;
pub mod help;
pub mod config;
pub mod session;
