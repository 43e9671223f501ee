//! The codec boundary: the exact-length rule for frames handed to the
//! encoder, and the packet shape that travels.
//!
//! The compressor itself is an external collaborator; this side fixes what
//! reaches it (exactly one frame) and what comes back from the decoder
//! (exactly one frame per packet, or a concealment frame for a loss).

use vstd::prelude::*;

use crate::signaling::{dec_digits, dec_into};
use crate::SAMPLES_PER_FRAME;

verus! {

broadcast use vstd::string::to_string_from_display_ensures_for_str;

/// Size of the scratch buffer handed to the encoder; voice packets are far
/// smaller.
pub const MAX_PACKET_LEN: usize = 256;

/// The encoder accepts exactly one frame: anything else is rejected before
/// the codec ever sees it.
pub fn check_frame_length(samples: &Vec<i16>) -> (r: bool)
    ensures
        r == (samples@.len() == SAMPLES_PER_FRAME),
{
    samples.len() == SAMPLES_PER_FRAME
}

/// Error text for a rejected frame, as surfaced to callers.
pub fn frame_length_error(got: usize) -> (r: String)
    ensures
        r@ == "expected one exact frame of samples, got "@ + dec_digits(got as int),
{
    let mut out: String = "expected one exact frame of samples, got ".to_string();
    dec_into(&mut out, got as u64);
    out
}

} // verus!
