//! Core of a peer-to-peer group voice chat: framing, resampling, noise
//! suppression, codec integration, per-peer jitter buffering and mixing, and
//! the offer/answer session protocol of a mesh of peers.
//!
//! Audio samples are mono 16-bit PCM at a fixed internal rate. Every stage
//! that consumes frames requires the exact frame length; boundaries pad with
//! silence or truncate rather than hand on a partial frame.

use vstd::prelude::*;

pub mod arith;
pub mod capture;
pub mod codec;
pub mod denoise;
pub mod level;
pub mod mixer;
pub mod playback;
pub mod resample;
pub mod room;
pub mod rtp;
pub mod screen;
pub mod server;
pub mod session;
pub mod signaling;
pub mod video;

verus! {

/// Internal processing rate in Hz (the codec's native rate).
pub const SAMPLE_RATE: u32 = 48000;

/// Channel count of the internal pipeline (mono voice).
pub const CHANNELS: u16 = 1;

/// Duration of one coding interval in milliseconds.
pub const FRAME_DURATION_MS: u32 = 20;

/// Samples per frame at the internal rate: 48000 * 20 / 1000.
pub const SAMPLES_PER_FRAME: usize = 960;

/// Codec bitrate in bits per second.
pub const OPUS_BITRATE: i32 = 64000;

/// An audio device as offered to the user: its name and whether it is the
/// system default.
#[derive(Debug)]
pub struct AudioDevice {
    /// Device name as the host reports it.
    pub name: String,
    /// Whether this is the system default for its direction.
    pub is_default: bool,
}

} // verus!
