//! Playback/analysis engine core for a desktop audio player.
//!
//! The crate holds the engine's decision logic: its state machine, the bounded
//! spectral ring buffer with sequence-cursor semantics, tag/format tracking,
//! output-device planning and enumeration ordering, and the parsing rules of
//! the audio-server metadata protocol. All pipeline and audio-server I/O is
//! performed by the host around this crate; the host hands plain values in and
//! carries plain values out.

use vstd::prelude::*;

pub mod devices;
pub mod engine;
pub mod fbits;
pub mod json;
pub mod numtext;
pub mod output;
pub mod profile;
pub mod pwclient;
pub mod ring;
pub mod snapshot;
pub mod spectrum;
pub mod strutil;
pub mod tags;

verus! {

} // verus!
