//! RTP-side bookkeeping the transport needs: sequence and timestamp
//! counters for outgoing audio, and the split of an encoded video frame
//! into payload chunks with their one-byte descriptor.

use vstd::prelude::*;

verus! {

/// Dynamic RTP payload type used for the voice codec.
pub const OPUS_PAYLOAD_TYPE: u8 = 111;

/// RTP clock rate of the voice codec (always 48 kHz).
pub const OPUS_CLOCK_RATE: u32 = 48000;

/// Samples represented by one audio packet (20 ms at 48 kHz).
pub const SAMPLES_PER_RTP_PACKET: u32 = 960;

/// Dynamic RTP payload type used for the video codec.
pub const VP8_PAYLOAD_TYPE: u8 = 96;

/// RTP clock rate of the video codec.
pub const VP8_CLOCK_RATE: u32 = 90000;

/// Largest payload per video packet, leaving room for the descriptor.
pub const MAX_VP8_PAYLOAD: usize = 1200;

/// Sequence and timestamp counters of one outgoing audio track; both wrap.
#[derive(Debug)]
pub struct AudioRtpCounters {
    /// Sequence number of the next packet.
    pub seq: u16,
    /// Media timestamp of the next packet.
    pub ts: u32,
}

impl AudioRtpCounters {
    /// Counters starting at the given (typically random) timestamp.
    pub fn new(start_ts: u32) -> (r: AudioRtpCounters)
        ensures
            r.seq == 0,
            r.ts == start_ts,
    {
        AudioRtpCounters { seq: 0, ts: start_ts }
    }

    /// Numbers for one outgoing packet; the counters advance by one
    /// sequence step and one frame of media time, wrapping.
    pub fn next_packet(&mut self) -> (r: (u16, u32))
        ensures
            r.0 == old(self).seq,
            r.1 == old(self).ts,
            final(self).seq == (old(self).seq + 1) % 0x10000,
            final(self).ts == (old(self).ts + SAMPLES_PER_RTP_PACKET) % 0x1_0000_0000,
    {
        let r: (u16, u32) = (self.seq, self.ts);
        self.seq = self.seq.wrapping_add(1);
        self.ts = self.ts.wrapping_add(SAMPLES_PER_RTP_PACKET);
        r
    }
}

/// One planned video packet: its sequence number, the end-of-frame marker,
/// and the descriptor-prefixed payload.
#[derive(Debug)]
pub struct RtpChunk {
    /// Sequence number for this packet.
    pub seq: u16,
    /// Set on the last packet of a frame.
    pub marker: bool,
    /// One descriptor byte followed by the frame bytes of this chunk.
    pub payload: Vec<u8>,
}

/// The one-byte payload descriptor: the start-of-partition bit on the
/// first chunk of a frame.
pub open spec fn vp8_descriptor(is_start: bool) -> u8 {
    if is_start {
        0x10u8
    } else {
        0u8
    }
}

/// Split an encoded frame into send-ready chunks of at most
/// `MAX_VP8_PAYLOAD` bytes: consecutive sequence numbers from `start_seq`
/// (wrapping), the marker on the last chunk, and each chunk prefixed with
/// its descriptor. An empty frame produces no chunks.
pub fn packetize_vp8(frame: &Vec<u8>, start_seq: u16) -> (r: Vec<RtpChunk>)
    requires
        frame@.len() <= 0x100_0000,
    ensures
        frame@.len() == 0 ==> r@.len() == 0,
        frame@.len() > 0 ==> r@.len() == (frame@.len() + MAX_VP8_PAYLOAD - 1) as int
            / MAX_VP8_PAYLOAD as int,
        forall|i: int|
            0 <= i < r@.len() ==> {
                let lo = i * MAX_VP8_PAYLOAD as int;
                let hi = if lo + MAX_VP8_PAYLOAD as int <= frame@.len() {
                    lo + MAX_VP8_PAYLOAD as int
                } else {
                    frame@.len() as int
                };
                &&& (#[trigger] r@[i]).seq == (start_seq + i) % 0x10000
                &&& r@[i].marker == (i == r@.len() - 1)
                &&& r@[i].payload@.len() == 1 + (hi - lo)
                &&& r@[i].payload@[0] == vp8_descriptor(i == 0)
                &&& r@[i].payload@.skip(1) == frame@.subrange(lo, hi)
            },
{
    let flen: usize = frame.len();
    if flen == 0 {
        return Vec::new();
    }
    let count: usize = (flen + MAX_VP8_PAYLOAD - 1) / MAX_VP8_PAYLOAD;
    let mut out: Vec<RtpChunk> = Vec::new();
    let mut seq: u16 = start_seq;
    let mut c: usize = 0;
    while c < count
        invariant
            c <= count,
            flen == frame@.len(),
            0 < flen <= 0x100_0000,
            count == (flen + MAX_VP8_PAYLOAD - 1) as int / MAX_VP8_PAYLOAD as int,
            out@.len() == c,
            seq == (start_seq + c) % 0x10000,
            forall|i: int|
                0 <= i < c ==> {
                    let lo = i * MAX_VP8_PAYLOAD as int;
                    let hi = if lo + MAX_VP8_PAYLOAD as int <= flen {
                        lo + MAX_VP8_PAYLOAD as int
                    } else {
                        flen as int
                    };
                    &&& (#[trigger] out@[i]).seq == (start_seq + i) % 0x10000
                    &&& out@[i].marker == (i + 1 == count)
                    &&& out@[i].payload@.len() == 1 + (hi - lo)
                    &&& out@[i].payload@[0] == vp8_descriptor(i == 0)
                    &&& out@[i].payload@.skip(1) == frame@.subrange(lo, hi)
                },
        decreases count - c,
    {
        proof {
            // this chunk's window lies inside the frame
            assert(c * 1200 < flen && (c + 1) * 1200 == c * 1200 + 1200) by (nonlinear_arith)
                requires
                    0 <= c < (flen + 1199) as int / 1200,
                    flen > 0,
            ;
        }
        let lo: usize = c * MAX_VP8_PAYLOAD;
        let hi: usize = if lo + MAX_VP8_PAYLOAD <= flen {
            lo + MAX_VP8_PAYLOAD
        } else {
            flen
        };
        let mut payload: Vec<u8> = Vec::new();
        if c == 0 {
            payload.push(0x10u8);
        } else {
            payload.push(0u8);
        }
        let mut j: usize = lo;
        while j < hi
            invariant
                lo <= j <= hi <= flen,
                flen == frame@.len(),
                payload@.len() == 1 + (j - lo),
                payload@[0] == vp8_descriptor(c == 0),
                payload@.skip(1) =~= frame@.subrange(lo as int, j as int),
            decreases hi - j,
        {
            payload.push(frame[j]);
            proof {
                assert(payload@.skip(1) =~= frame@.subrange(lo as int, j + 1));
            }
            j = j + 1;
        }
        let marker: bool = c + 1 == count;
        out.push(RtpChunk { seq, marker, payload });
        seq = seq.wrapping_add(1);
        c = c + 1;
        proof {
            vstd::arithmetic::div_mod::lemma_add_mod_noop(start_seq as int + (c - 1), 1, 0x10000);
            assert(1int % 0x10000 == 1);
            assert(seq == (start_seq + c) % 0x10000);
        }
    }
    out
}

} // verus!
