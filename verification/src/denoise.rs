//! Noise suppression around a recurrent denoising model.
//!
//! The suppressor has exactly two states. While enabled, input accumulates in
//! an internal buffer and is handed to the model in fixed 480-sample frames
//! at 48 kHz; a non-multiple tail stays buffered for the next call. While
//! disabled, input passes through unchanged and the buffer is kept empty. A
//! source rate other than 48 kHz is bridged by resampling on the way in and
//! out.

use vstd::prelude::*;

use crate::resample::{resample, resampled_len, resampled_seq};

verus! {

/// Fixed frame size the denoising model consumes (10 ms at 48 kHz).
pub const DENOISE_FRAME_SIZE: usize = 480;

/// The model's fixed processing rate in Hz.
pub const DENOISE_SAMPLE_RATE: u32 = 48000;

/// Largest batch of samples accepted per call.
pub const DENOISE_MAX_INPUT: usize = 0x8_0000;

#[verifier::external_type_specification]
#[verifier::external_body]
pub struct ExDenoiseState<'a>(nnnoiseless::DenoiseState<'a>);

/// Relies on nnnoiseless's `DenoiseState::new` for fresh model state.
#[verifier::external_body]
fn new_denoise_state() -> Box<nnnoiseless::DenoiseState<'static>> {
    nnnoiseless::DenoiseState::new()
}

/// Relies on nnnoiseless's `DenoiseState::process_frame`: one 480-sample
/// frame in, one denoised 480-sample frame out. The model works on floats in
/// the 16-bit PCM range, so the samples convert one for one.
#[verifier::external_body]
fn denoise_frame(state: &mut Box<nnnoiseless::DenoiseState<'static>>, input: &Vec<i16>) -> (r: Vec<
    i16,
>)
    requires
        input@.len() == DENOISE_FRAME_SIZE,
    ensures
        r@.len() == DENOISE_FRAME_SIZE,
{
    let inf: Vec<_> = input.iter().map(|&s| s.into()).collect();
    let mut outf = vec![Default::default(); 480];
    state.process_frame(&mut outf, &inf);
    outf.iter().map(|&v| v as i16).collect()
}

/// Noise suppressor with resampling support.
pub struct AudioDenoiser {
    /// Opaque model state.
    pub state: Box<nnnoiseless::DenoiseState<'static>>,
    /// Samples (at 48 kHz) waiting for a full model frame.
    pub pending: Vec<i16>,
    /// Whether suppression is applied; when off, input passes through.
    pub enabled: bool,
    /// Rate of the samples handed to `process`.
    pub source_rate: u32,
}

impl AudioDenoiser {
    /// The buffered tail is always shorter than one model frame, and the
    /// source rate stays in the range real audio devices use.
    pub open spec fn wf(&self) -> bool {
        &&& self.pending@.len() < DENOISE_FRAME_SIZE
        &&& 8000 <= self.source_rate <= 384000
    }

    /// Fresh suppressor: enabled, empty buffer, native 48 kHz.
    pub fn new() -> (r: AudioDenoiser)
        ensures
            r.wf(),
            r.enabled,
            r.pending@.len() == 0,
            r.source_rate == DENOISE_SAMPLE_RATE,
    {
        AudioDenoiser {
            state: new_denoise_state(),
            pending: Vec::new(),
            enabled: true,
            source_rate: DENOISE_SAMPLE_RATE,
        }
    }

    /// Change the source rate; buffered audio from the old rate is discarded.
    pub fn set_sample_rate(&mut self, rate: u32)
        requires
            old(self).wf(),
            8000 <= rate <= 384000,
        ensures
            final(self).wf(),
            final(self).source_rate == rate,
            final(self).pending@.len() == 0,
            final(self).enabled == old(self).enabled,
    {
        self.source_rate = rate;
        self.pending.clear();
    }

    /// Enable or disable suppression; disabling clears the buffer so no
    /// stale audio leaks into a later enabled stretch.
    pub fn set_enabled(&mut self, enabled: bool)
        requires
            old(self).wf(),
        ensures
            final(self).wf(),
            final(self).enabled == enabled,
            final(self).source_rate == old(self).source_rate,
            !enabled ==> final(self).pending@.len() == 0,
            enabled ==> final(self).pending@ == old(self).pending@,
    {
        self.enabled = enabled;
        if !enabled {
            self.pending.clear();
        }
    }

    /// Whether suppression is applied.
    pub fn is_enabled(&self) -> (r: bool)
        ensures
            r == self.enabled,
    {
        self.enabled
    }

    /// Discard buffered audio and reinitialize the model state. Call after
    /// any discontinuity (device change, flush) to avoid artifacts from
    /// stale history.
    pub fn reset(&mut self)
        requires
            old(self).wf(),
        ensures
            final(self).wf(),
            final(self).pending@.len() == 0,
            final(self).enabled == old(self).enabled,
            final(self).source_rate == old(self).source_rate,
    {
        self.state = new_denoise_state();
        self.pending.clear();
    }

    /// Run samples through the suppressor.
    ///
    /// Disabled: the input comes back unchanged and no state moves. Enabled
    /// at 48 kHz: whole 480-sample frames of `buffer + input` are denoised
    /// and returned; the tail stays buffered. At another source rate the
    /// input is resampled to 48 kHz first and the denoised frames are
    /// resampled back.
    pub fn process(&mut self, samples: &Vec<i16>) -> (r: Vec<i16>)
        requires
            old(self).wf(),
            samples@.len() <= DENOISE_MAX_INPUT,
        ensures
            final(self).wf(),
            final(self).enabled == old(self).enabled,
            final(self).source_rate == old(self).source_rate,
            !old(self).enabled ==> r@ == samples@ && final(self).pending@ == old(self).pending@,
            old(self).enabled && old(self).source_rate == DENOISE_SAMPLE_RATE ==> {
                let total = old(self).pending@ + samples@;
                let whole = (total.len() as int / DENOISE_FRAME_SIZE as int)
                    * DENOISE_FRAME_SIZE as int;
                &&& r@.len() == whole
                &&& final(self).pending@ == total.skip(whole)
            },
            old(self).enabled && old(self).source_rate != DENOISE_SAMPLE_RATE ==> {
                let up = resampled_seq(
                    samples@,
                    DENOISE_SAMPLE_RATE as int,
                    old(self).source_rate as int,
                );
                let total = old(self).pending@ + up;
                let whole = (total.len() as int / DENOISE_FRAME_SIZE as int)
                    * DENOISE_FRAME_SIZE as int;
                &&& r@.len() == resampled_len(
                    whole,
                    old(self).source_rate as int,
                    DENOISE_SAMPLE_RATE as int,
                )
                &&& final(self).pending@ == total.skip(whole)
            },
    {
        if !self.enabled {
            return samples.clone();
        }
        let ghost rate = self.source_rate as int;
        let needs_resample: bool = self.source_rate != DENOISE_SAMPLE_RATE;
        let mut up: Vec<i16> = if needs_resample {
            proof {
                assert(samples@.len() * (DENOISE_SAMPLE_RATE as int) <= rate * 0x1000_0000)
                    by (nonlinear_arith)
                    requires
                        samples@.len() <= 0x8_0000,
                        8000 <= rate,
                ;
            }
            resample(samples, DENOISE_SAMPLE_RATE, self.source_rate)
        } else {
            samples.clone()
        };
        let ghost up_seq = up@;
        proof {
            if needs_resample {
                assert(up@.len() == (samples@.len() * 48000 + rate - 1) / rate);
                assert((samples@.len() * 48000 + rate - 1) / rate <= 0x30_0001)
                    by (nonlinear_arith)
                    requires
                        samples@.len() <= 0x8_0000,
                        8000 <= rate <= 384000,
                ;
            }
            assert(up_seq.len() <= 0x30_0001);
        }
        self.pending.append(&mut up);
        let ghost total = self.pending@;
        let total_len: usize = self.pending.len();
        let whole: usize = (total_len / DENOISE_FRAME_SIZE) * DENOISE_FRAME_SIZE;
        let mut outbuf: Vec<i16> = Vec::new();
        let mut c: usize = 0;
        while c < whole
            invariant
                c <= whole,
                whole <= total_len,
                whole == (total_len as int / DENOISE_FRAME_SIZE as int)
                    * DENOISE_FRAME_SIZE as int,
                c % DENOISE_FRAME_SIZE == 0,
                total_len == self.pending@.len(),
                self.pending@ == total,
                self.enabled == old(self).enabled,
                self.source_rate == old(self).source_rate,
                outbuf@.len() == c,
            decreases whole - c,
        {
            proof {
                assert((total_len as int / 480) * 480 <= total_len as int) by (nonlinear_arith)
                    requires
                        total_len as int >= 0,
                ;
            }
            let mut frame: Vec<i16> = Vec::new();
            let mut j: usize = 0;
            while j < DENOISE_FRAME_SIZE
                invariant
                    j <= DENOISE_FRAME_SIZE,
                    c + DENOISE_FRAME_SIZE <= total_len,
                    total_len == self.pending@.len(),
                    frame@.len() == j,
                decreases DENOISE_FRAME_SIZE - j,
            {
                frame.push(self.pending[c + j]);
                j = j + 1;
            }
            let mut df: Vec<i16> = denoise_frame(&mut self.state, &frame);
            outbuf.append(&mut df);
            c = c + DENOISE_FRAME_SIZE;
            proof {
                assert(c % DENOISE_FRAME_SIZE == 0) by (nonlinear_arith)
                    requires
                        (c - DENOISE_FRAME_SIZE as int) % DENOISE_FRAME_SIZE as int == 0,
                        c >= DENOISE_FRAME_SIZE as int,
                ;
            }
        }
        // keep the non-multiple tail for the next call
        let mut tail: Vec<i16> = Vec::new();
        let mut j: usize = whole;
        while j < total_len
            invariant
                whole <= j <= total_len,
                total_len == self.pending@.len(),
                self.pending@ == total,
                tail@ =~= total.subrange(whole as int, j as int),
            decreases total_len - j,
        {
            tail.push(self.pending[j]);
            j = j + 1;
        }
        proof {
            assert(tail@ =~= total.skip(whole as int));
            assert(total_len - whole < DENOISE_FRAME_SIZE) by (nonlinear_arith)
                requires
                    whole == (total_len as int / 480) * 480,
                    total_len as int >= 0,
                    DENOISE_FRAME_SIZE as int == 480,
            ;
        }
        self.pending = tail;
        if needs_resample {
            proof {
                assert(total.len() == old(self).pending@.len() + up_seq.len());
                assert(outbuf@.len() <= 0x30_0001 + 480);
                assert(outbuf@.len() * rate <= 48000 * 0x1000_0000) by (nonlinear_arith)
                    requires
                        outbuf@.len() <= 0x30_0001 + 480,
                        0 < rate <= 384000,
                ;
            }
            resample(&outbuf, self.source_rate, DENOISE_SAMPLE_RATE)
        } else {
            outbuf
        }
    }
}

/// Concatenation of a sequence of sample batches, in order.
pub open spec fn concat_all(seqs: Seq<Seq<i16>>) -> Seq<i16>
    decreases seqs.len(),
{
    if seqs.len() == 0 {
        Seq::empty()
    } else {
        concat_all(seqs.drop_last()) + seqs.last()
    }
}

/// Pass-through invariant: while the suppressor is disabled, every call to
/// `process` returns exactly its input, so over any sequence of calls the
/// concatenated output equals the concatenated input.
pub proof fn lemma_disabled_passthrough_concat(inputs: Seq<Seq<i16>>, outputs: Seq<Seq<i16>>)
    requires
        inputs.len() == outputs.len(),
        forall|i: int| 0 <= i < inputs.len() ==> #[trigger] outputs[i] == inputs[i],
    ensures
        concat_all(outputs) == concat_all(inputs),
    decreases inputs.len(),
{
    if inputs.len() > 0 {
        lemma_disabled_passthrough_concat(inputs.drop_last(), outputs.drop_last());
        assert(outputs.last() == inputs.last());
    }
}

} // verus!
