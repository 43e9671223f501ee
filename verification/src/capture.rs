//! Capture-side processing: accumulate arbitrary-sized device callback
//! buffers, downmix to mono, cut device-rate frames, resample to the
//! internal rate, denoise, meter, and hand out exact-length frames for
//! encoding, together with one level event per processed frame.
//!
//! The hardware stream itself (device selection, the real-time callback)
//! lives outside; it feeds plain sample batches in and performs the codec
//! call on the frames handed back.

use vstd::prelude::*;

use crate::denoise::{AudioDenoiser, DENOISE_SAMPLE_RATE};
use crate::level::{rms_value, SPEAKING_THRESHOLD_RMS};
use crate::resample::{resample, resampled_seq};
use crate::SAMPLES_PER_FRAME;

verus! {

/// Compressed audio ready for transmission, stamped with a running sample
/// counter.
#[derive(Debug)]
pub struct AudioPacket {
    /// Codec payload.
    pub data: Vec<u8>,
    /// Timestamp in samples; increases by the frame length per packet.
    pub timestamp: u64,
}

/// An encoded frame queued for fan-out to the mesh.
#[derive(Debug)]
pub struct EncodedAudioPacket {
    /// Codec payload.
    pub data: Vec<u8>,
    /// Timestamp in samples; increases by the frame length per packet.
    pub timestamp: u64,
}

/// Level metering result for one processed capture frame.
#[derive(Debug)]
pub struct AudioLevelEvent {
    /// Integer RMS of the frame in 16-bit sample units (0 when muted).
    pub rms: u32,
    /// Whether the frame counts as speech (never while muted).
    pub is_speaking: bool,
}

/// Mono downmix of interleaved channels: each output sample is the average
/// of one chunk of `ch` samples (a short tail still divides by `ch`).
pub open spec fn mono_chunk(data: Seq<i16>, ch: int, i: int) -> int
    recommends
        ch > 0,
{
    let lo = i * ch;
    let hi = if (i + 1) * ch <= data.len() {
        (i + 1) * ch
    } else {
        data.len() as int
    };
    crate::arith::tdiv(sum_range(data, lo, hi), ch)
}

/// Sum of `data[lo..hi]`.
pub open spec fn sum_range(data: Seq<i16>, lo: int, hi: int) -> int
    decreases hi - lo,
{
    if lo >= hi {
        0
    } else {
        sum_range(data, lo, hi - 1) + data[hi - 1] as int
    }
}

/// The sum of a range of 16-bit samples is bounded by its width.
pub proof fn lemma_sum_range_bound(data: Seq<i16>, lo: int, hi: int)
    requires
        0 <= lo,
        hi <= data.len(),
    ensures
        -(if hi - lo >= 0 {
            hi - lo
        } else {
            0
        }) * 32768 <= sum_range(data, lo, hi) <= (if hi - lo >= 0 {
            hi - lo
        } else {
            0
        }) * 32767,
    decreases hi - lo,
{
    if lo < hi {
        lemma_sum_range_bound(data, lo, hi - 1);
    }
}

/// Number of mono samples produced from `len` interleaved samples:
/// `ceil(len / ch)`.
pub open spec fn mono_len(len: int, ch: int) -> int
    recommends
        ch > 0,
{
    (len + ch - 1) / ch
}

/// One exact frame cut from a batch: the first `min(len, SAMPLES_PER_FRAME)`
/// samples, padded with silence.
pub open spec fn fitted(s: Seq<i16>) -> Seq<i16> {
    Seq::new(
        SAMPLES_PER_FRAME as nat,
        |i: int|
            if i < s.len() {
                s[i]
            } else {
                0i16
            },
    )
}

/// Pad with silence or truncate so exactly one frame remains; the first
/// `min(len, SAMPLES_PER_FRAME)` samples are kept.
pub fn fit_to_frame(v: &Vec<i16>) -> (r: Vec<i16>)
    ensures
        r@.len() == SAMPLES_PER_FRAME,
        r@ == fitted(v@),
        forall|i: int|
            0 <= i < SAMPLES_PER_FRAME ==> r@[i] == (if i < v@.len() {
                v@[i]
            } else {
                0i16
            }),
{
    let mut out: Vec<i16> = Vec::new();
    let mut i: usize = 0;
    while i < SAMPLES_PER_FRAME
        invariant
            i <= SAMPLES_PER_FRAME,
            out@.len() == i,
            forall|j: int|
                0 <= j < i ==> out@[j] == (if j < v@.len() {
                    v@[j]
                } else {
                    0i16
                }),
        decreases SAMPLES_PER_FRAME - i,
    {
        if i < v.len() {
            out.push(v[i]);
        } else {
            out.push(0i16);
        }
        i = i + 1;
    }
    proof {
        assert(out@ =~= fitted(v@));
    }
    out
}

/// Downmix interleaved samples to mono by averaging each chunk of
/// `channels` samples.
pub fn downmix_mono(data: &Vec<i16>, channels: usize) -> (r: Vec<i16>)
    requires
        0 < channels <= 64,
        data@.len() <= 0x100_0000,
    ensures
        r@.len() == mono_len(data@.len() as int, channels as int),
        forall|i: int|
            0 <= i < r@.len() ==> r@[i] as int == mono_chunk(data@, channels as int, i),
{
    let ghost gch = channels as int;
    let ghost glen = data@.len() as int;
    let len: usize = data.len();
    let out_len: usize = (len + channels - 1) / channels;
    let mut out: Vec<i16> = Vec::new();
    let mut i: usize = 0;
    while i < out_len
        invariant
            i <= out_len,
            0 < gch <= 64,
            channels == gch,
            len == glen == data@.len(),
            glen <= 0x100_0000,
            out_len == mono_len(glen, gch),
            out@.len() == i,
            forall|j: int| 0 <= j < i ==> out@[j] as int == mono_chunk(data@, gch, j),
        decreases out_len - i,
    {
        proof {
            // i < ceil(len / ch) forces the chunk start below len
            assert(i * gch < glen) by (nonlinear_arith)
                requires
                    0 <= i < (glen + gch - 1) / gch,
                    gch > 0,
            ;
            assert(0 <= i * gch <= 0x100_0000 * 64) by (nonlinear_arith)
                requires
                    0 <= i,
                    i * gch < glen <= 0x100_0000,
                    0 < gch <= 64,
            ;
        }
        let lo: usize = i * channels;
        let hi: usize = if lo + channels <= len {
            lo + channels
        } else {
            len
        };
        let mut sum: i32 = 0;
        let mut j: usize = lo;
        proof {
            assert((i + 1) * gch == i * gch + gch) by (nonlinear_arith);
        }
        while j < hi
            invariant
                lo <= j <= hi <= data@.len(),
                hi - lo <= gch <= 64,
                sum == sum_range(data@, lo as int, j as int),
                -64 * 32768 <= sum <= 64 * 32768,
            decreases hi - j,
        {
            proof {
                lemma_sum_range_bound(data@, lo as int, j as int);
                assert((j - lo) * 32768 <= 63 * 32768) by (nonlinear_arith)
                    requires
                        0 <= j - lo <= 63,
                ;
            }
            sum = sum + (data[j] as i32);
            j = j + 1;
        }
        let avg: i32 = sum / (channels as i32);
        proof {
            lemma_sum_range_bound(data@, lo as int, hi as int);
            let w = hi - lo;
            assert(-gch * 32768 <= sum as int <= gch * 32767) by (nonlinear_arith)
                requires
                    0 <= w <= gch,
                    -w * 32768 <= sum as int <= w * 32767,
            ;
            if sum >= 0 {
                assert(0 <= (sum as int) / gch <= 32767) by (nonlinear_arith)
                    requires
                        gch > 0,
                        0 <= sum as int <= gch * 32767,
                ;
            } else {
                assert(0 <= (-(sum as int)) / gch <= 32768) by (nonlinear_arith)
                    requires
                        gch > 0,
                        0 < -(sum as int) <= gch * 32768,
                ;
            }
        }
        out.push(avg as i16);
        i = i + 1;
    }
    out
}


/// What one processed capture frame produced: a level event, and, when the
/// session is not muted, an exact-length frame ready for the codec.
#[derive(Debug)]
pub struct CaptureOutcome {
    /// Level metering for this frame.
    pub event: AudioLevelEvent,
    /// Exactly `SAMPLES_PER_FRAME` samples to encode; `None` while muted.
    pub encodable: Option<Vec<i16>>,
}

/// Mono downmix of a whole batch, as a sequence.
pub open spec fn mono_seq(data: Seq<i16>, ch: int) -> Seq<i16>
    recommends
        ch > 0,
{
    Seq::new(mono_len(data.len() as int, ch) as nat, |i: int| mono_chunk(data, ch, i) as i16)
}

/// Capture-side state: scratch buffer at the device rate, mute flag, noise
/// suppressor, outbound timestamp counter and the last metered level.
pub struct CapturePipeline {
    /// Mono samples at the device rate awaiting a full device frame.
    pub scratch: Vec<i16>,
    /// The input device's native rate in Hz.
    pub device_rate: u32,
    /// The input device's channel count; input is downmixed to mono.
    pub channels: usize,
    /// While muted, levels read zero and nothing is handed to the codec.
    pub muted: bool,
    /// Noise suppressor, fixed at the internal rate.
    pub denoiser: AudioDenoiser,
    /// Running sample counter for outbound packets.
    pub timestamp: u64,
    /// RMS of the most recently processed frame.
    pub current_rms: u32,
}

impl CapturePipeline {
    /// Samples per device-rate frame (20 ms).
    pub open spec fn spec_device_frame(&self) -> int {
        self.device_rate as int / 50
    }

    /// Rates and channel counts of real devices; the scratch buffer always
    /// holds less than one device frame; the suppressor runs at 48 kHz.
    pub open spec fn wf(&self) -> bool {
        &&& 8000 <= self.device_rate <= 384000
        &&& 0 < self.channels <= 64
        &&& self.denoiser.wf()
        &&& self.denoiser.source_rate == DENOISE_SAMPLE_RATE
        &&& self.scratch@.len() < self.spec_device_frame()
    }

    /// Fresh pipeline for a device with the given rate and channel count.
    /// Capture starts muted, as a voice session should.
    pub fn new(device_rate: u32, channels: usize) -> (r: CapturePipeline)
        requires
            8000 <= device_rate <= 384000,
            0 < channels <= 64,
        ensures
            r.wf(),
            r.muted,
            r.timestamp == 0,
            r.current_rms == 0,
            r.scratch@.len() == 0,
            r.device_rate == device_rate,
            r.channels == channels,
    {
        proof {
            assert(device_rate as int / 50 >= 160) by (nonlinear_arith)
                requires
                    device_rate >= 8000,
            ;
        }
        CapturePipeline {
            scratch: Vec::new(),
            device_rate,
            channels,
            muted: true,
            denoiser: AudioDenoiser::new(),
            timestamp: 0,
            current_rms: 0,
        }
    }

    /// Mute or unmute. Muting zeroes the reported level at once.
    pub fn set_muted(&mut self, muted: bool)
        requires
            old(self).wf(),
        ensures
            final(self).wf(),
            final(self).muted == muted,
            muted ==> final(self).current_rms == 0,
            final(self).scratch@ == old(self).scratch@,
            final(self).timestamp == old(self).timestamp,
    {
        self.muted = muted;
        if muted {
            self.current_rms = 0;
        }
    }

    /// Whether capture is muted.
    pub fn is_muted(&self) -> (r: bool)
        ensures
            r == self.muted,
    {
        self.muted
    }

    /// RMS of the most recently processed frame (0 while muted).
    pub fn current_level(&self) -> (r: u32)
        ensures
            r == self.current_rms,
    {
        self.current_rms
    }

    /// Hand out the timestamp for one outgoing packet and advance the
    /// counter by the frame length. Call once per successfully encoded
    /// frame.
    pub fn claim_timestamp(&mut self) -> (t: u64)
        requires
            old(self).wf(),
            old(self).timestamp + SAMPLES_PER_FRAME <= u64::MAX,
        ensures
            final(self).wf(),
            t == old(self).timestamp,
            final(self).timestamp == old(self).timestamp + SAMPLES_PER_FRAME,
            final(self).scratch@ == old(self).scratch@,
            final(self).muted == old(self).muted,
            final(self).current_rms == old(self).current_rms,
    {
        let t: u64 = self.timestamp;
        self.timestamp = self.timestamp + (SAMPLES_PER_FRAME as u64);
        t
    }

    /// Feed one device callback's worth of interleaved samples through the
    /// pipeline. Whole device frames are downmixed, resampled to the
    /// internal rate, denoised and metered; the remainder stays buffered.
    ///
    /// While muted, every emitted event reads level zero and no frame is
    /// handed out for encoding.
    pub fn process_input(&mut self, data: &Vec<i16>) -> (r: Vec<CaptureOutcome>)
        requires
            old(self).wf(),
            data@.len() <= 0x100_0000,
        ensures
            final(self).wf(),
            final(self).muted == old(self).muted,
            final(self).device_rate == old(self).device_rate,
            final(self).channels == old(self).channels,
            final(self).timestamp == old(self).timestamp,
            ({
                let combined = old(self).scratch@ + mono_seq(data@, old(self).channels as int);
                let df = old(self).spec_device_frame();
                let frames = combined.len() as int / df;
                &&& r@.len() == frames
                &&& final(self).scratch@ == combined.skip(frames * df)
            }),
            forall|i: int|
                0 <= i < r@.len() && old(self).muted ==> {
                    &&& (#[trigger] r@[i]).event.rms == 0
                    &&& !r@[i].event.is_speaking
                    &&& r@[i].encodable is None
                },
            forall|i: int|
                0 <= i < r@.len() && !old(self).muted ==> {
                    &&& (#[trigger] r@[i]).encodable matches Some(f) && f@.len()
                        == SAMPLES_PER_FRAME
                    &&& r@[i].event.is_speaking == (r@[i].event.rms > SPEAKING_THRESHOLD_RMS)
                    &&& r@[i].event.rms <= 32768
                },
            // with suppression off the content handed to the codec is fully
            // determined: the fitted resample of each downmixed device frame
            forall|i: int|
                0 <= i < r@.len() && !old(self).muted && !old(self).denoiser.enabled ==> {
                    let combined = old(self).scratch@ + mono_seq(data@, old(self).channels as int);
                    let df = old(self).spec_device_frame();
                    let up = resampled_seq(
                        combined.subrange(i * df, (i + 1) * df),
                        DENOISE_SAMPLE_RATE as int,
                        old(self).device_rate as int,
                    );
                    (#[trigger] r@[i]).encodable matches Some(f) && f@ == fitted(up)
                },
            final(self).denoiser.enabled == old(self).denoiser.enabled,
            r@.len() > 0 ==> final(self).current_rms == r@.last().event.rms,
            r@.len() == 0 ==> final(self).current_rms == old(self).current_rms,
    {
        let ghost gch = self.channels as int;
        let ghost grate = self.device_rate as int;
        let mut mono: Vec<i16> = downmix_mono(data, self.channels);
        proof {
            assert(mono@ =~= mono_seq(data@, gch));
        }
        let mut work: Vec<i16> = Vec::new();
        let mut ci: usize = 0;
        let scratch_len: usize = self.scratch.len();
        while ci < scratch_len
            invariant
                ci <= scratch_len,
                scratch_len == self.scratch@.len(),
                work@ =~= self.scratch@.subrange(0, ci as int),
            decreases scratch_len - ci,
        {
            work.push(self.scratch[ci]);
            ci = ci + 1;
        }
        work.append(&mut mono);
        let ghost combined = old(self).scratch@ + mono_seq(data@, gch);
        proof {
            assert(work@ =~= combined);
        }
        let df: usize = (self.device_rate as usize) / 50;
        proof {
            assert(160 <= grate / 50 <= 7680) by (nonlinear_arith)
                requires
                    8000 <= grate <= 384000,
            ;
        }
        let total_len: usize = work.len();
        let frames: usize = total_len / df;
        let mut out: Vec<CaptureOutcome> = Vec::new();
        let mut c: usize = 0;
        while c < frames
            invariant
                c <= frames,
                frames == total_len as int / df as int,
                total_len == work@.len() == combined.len(),
                work@ == combined,
                160 <= df <= 7680,
                df == old(self).spec_device_frame(),
                grate == old(self).device_rate,
                8000 <= grate <= 384000,
                self.device_rate == old(self).device_rate,
                self.channels == old(self).channels,
                self.muted == old(self).muted,
                self.timestamp == old(self).timestamp,
                self.scratch@ == old(self).scratch@,
                self.denoiser.wf(),
                self.denoiser.source_rate == DENOISE_SAMPLE_RATE,
                self.denoiser.enabled == old(self).denoiser.enabled,
                out@.len() == c,
                forall|i: int|
                    0 <= i < c && old(self).muted ==> {
                        &&& (#[trigger] out@[i]).event.rms == 0
                        &&& !out@[i].event.is_speaking
                        &&& out@[i].encodable is None
                    },
                forall|i: int|
                    0 <= i < c && !old(self).muted ==> {
                        &&& (#[trigger] out@[i]).encodable matches Some(f) && f@.len()
                            == SAMPLES_PER_FRAME
                        &&& out@[i].event.is_speaking == (out@[i].event.rms
                            > SPEAKING_THRESHOLD_RMS)
                        &&& out@[i].event.rms <= 32768
                    },
                forall|i: int|
                    0 <= i < c && !old(self).muted && !old(self).denoiser.enabled ==> {
                        let up = resampled_seq(
                            combined.subrange(
                                i * old(self).spec_device_frame(),
                                (i + 1) * old(self).spec_device_frame(),
                            ),
                            DENOISE_SAMPLE_RATE as int,
                            old(self).device_rate as int,
                        );
                        (#[trigger] out@[i]).encodable matches Some(f) && f@ == fitted(up)
                    },
                c > 0 ==> self.current_rms == out@.last().event.rms,
                c == 0 ==> self.current_rms == old(self).current_rms,
            decreases frames - c,
        {
            proof {
                assert((c + 1) * df <= total_len && c * df >= 0 && c * df <= (c + 1) * df)
                    by (nonlinear_arith)
                    requires
                        0 <= c < total_len as int / df as int,
                        df > 0,
                ;
            }
            let mut frame: Vec<i16> = Vec::new();
            let mut j: usize = 0;
            proof {
                assert(frame@ =~= work@.subrange(c * df, c * df + 0));
            }
            while j < df
                invariant
                    j <= df,
                    (c + 1) * df <= total_len,
                    c * df >= 0,
                    total_len == work@.len(),
                    work@ == combined,
                    frame@ =~= work@.subrange(c * df, c * df + j),
                decreases df - j,
            {
                proof {
                    assert(c * df + j < (c + 1) * df) by (nonlinear_arith)
                        requires
                            0 <= j < df,
                    ;
                }
                frame.push(work[c * df + j]);
                j = j + 1;
            }
            proof {
                assert((c + 1) * df == c * df + df) by (nonlinear_arith);
                assert(frame@ =~= combined.subrange(c * df, (c + 1) * df));
            }
            // to the internal rate
            proof {
                assert(df * (DENOISE_SAMPLE_RATE as int) <= grate * 0x1000_0000)
                    by (nonlinear_arith)
                    requires
                        df <= 7680,
                        grate >= 8000,
                ;
            }
            let up: Vec<i16> = resample(&frame, DENOISE_SAMPLE_RATE, self.device_rate);
            proof {
                // one resampled device frame is at most one internal frame
                assert(df * 48000 <= grate * 960) by (nonlinear_arith)
                    requires
                        df == grate / 50,
                        grate > 0,
                ;
                assert((df * 48000 + grate - 1) / grate <= 960) by (nonlinear_arith)
                    requires
                        df * 48000 <= grate * 960,
                        grate > 0,
                        df >= 0,
                ;
            }
            let ghost pend0 = self.denoiser.pending@.len();
            let ghost den_on = self.denoiser.enabled;
            let processed: Vec<i16> = self.denoiser.process(&up);
            proof {
                if den_on {
                    assert(processed@.len() <= pend0 + up@.len()) by (nonlinear_arith)
                        requires
                            processed@.len() == ((pend0 + up@.len()) / 480) * 480,
                            pend0 + up@.len() >= 0,
                    ;
                } else {
                    assert(processed@ == up@);
                    assert(up@ == resampled_seq(
                        combined.subrange(c * df, (c + 1) * df),
                        DENOISE_SAMPLE_RATE as int,
                        old(self).device_rate as int,
                    ));
                }
                assert(processed@.len() <= 0x10000);
            }
            let rms: u32 = if self.muted {
                0
            } else {
                rms_value(&processed, processed.len())
            };
            let speaking: bool = !self.muted && rms > SPEAKING_THRESHOLD_RMS;
            self.current_rms = rms;
            let encodable: Option<Vec<i16>> = if self.muted {
                None
            } else {
                Some(fit_to_frame(&processed))
            };
            out.push(CaptureOutcome { event: AudioLevelEvent { rms, is_speaking: speaking }, encodable });
            c = c + 1;
        }
        // keep the tail below one device frame
        proof {
            assert(frames * df <= total_len && total_len - frames * df < df) by (nonlinear_arith)
                requires
                    frames == total_len as int / df as int,
                    df > 0,
                    total_len >= 0,
            ;
        }
        let mut ntail: Vec<i16> = Vec::new();
        let mut j: usize = frames * df;
        while j < total_len
            invariant
                frames * df <= j <= total_len,
                total_len == work@.len(),
                work@ == combined,
                ntail@ =~= combined.subrange(frames * df, j as int),
            decreases total_len - j,
        {
            ntail.push(work[j]);
            j = j + 1;
        }
        proof {
            assert(ntail@ =~= combined.skip(frames * df));
        }
        self.scratch = ntail;
        out
    }
}

/// Outbound packet queue: the capture side pushes, the network side polls
/// without blocking, oldest first.
pub struct OutboundQueue {
    /// Packets awaiting transmission, oldest first.
    pub items: Vec<AudioPacket>,
}

impl OutboundQueue {
    /// Empty queue.
    pub fn new() -> (r: OutboundQueue)
        ensures
            r.items@.len() == 0,
    {
        OutboundQueue { items: Vec::new() }
    }

    /// Enqueue one packet at the back.
    pub fn push(&mut self, packet: AudioPacket)
        ensures
            final(self).items@.len() == old(self).items@.len() + 1,
            final(self).items@.last() == packet,
            forall|i: int|
                0 <= i < old(self).items@.len() ==> final(self).items@[i] == old(
                    self,
                ).items@[i],
    {
        self.items.push(packet);
    }

    /// Non-blocking poll: the oldest packet, or `None` when the queue is
    /// empty. A caller must not assume a packet is available every poll.
    pub fn poll(&mut self) -> (r: Option<AudioPacket>)
        ensures
            old(self).items@.len() == 0 ==> r is None && final(self).items@ == old(self).items@,
            old(self).items@.len() > 0 ==> {
                &&& r matches Some(p) && p == old(self).items@[0]
                &&& final(self).items@ == old(self).items@.skip(1)
            },
    {
        if self.items.len() == 0 {
            None
        } else {
            let p: AudioPacket = self.items.remove(0);
            proof {
                assert(self.items@ =~= old(self).items@.skip(1));
            }
            Some(p)
        }
    }

    /// Number of queued packets.
    pub fn len(&self) -> (r: usize)
        ensures
            r == self.items@.len(),
    {
        self.items.len()
    }
}

} // verus!
