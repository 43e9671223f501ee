//! Playback-side buffering: decoded samples queue up here and the output
//! callback drains them, falling back to silence or to a pull-based source
//! on underrun.

use vstd::prelude::*;

use crate::SAMPLES_PER_FRAME;

verus! {

/// The playback queue is trimmed from the front beyond about 20 frames, to
/// bound memory and latency.
pub const PLAYBACK_BUFFER_CAP: usize = 19200;

/// Queue of mixed samples awaiting the output device, oldest first.
pub struct PlaybackBuffer {
    /// Buffered samples.
    pub samples: Vec<i16>,
}

impl PlaybackBuffer {
    /// Empty buffer.
    pub fn new() -> (r: PlaybackBuffer)
        ensures
            r.samples@.len() == 0,
    {
        PlaybackBuffer { samples: Vec::new() }
    }

    /// Number of buffered samples.
    pub fn len(&self) -> (r: usize)
        ensures
            r == self.samples@.len(),
    {
        self.samples.len()
    }

    /// Append decoded samples, dropping the oldest beyond the cap.
    pub fn push_samples(&mut self, s: &Vec<i16>)
        requires
            old(self).samples@.len() <= PLAYBACK_BUFFER_CAP,
            s@.len() <= 0x1000_0000,
        ensures
            ({
                let combined = old(self).samples@ + s@;
                let keep = if combined.len() <= PLAYBACK_BUFFER_CAP {
                    combined.len() as int
                } else {
                    PLAYBACK_BUFFER_CAP as int
                };
                final(self).samples@ == combined.skip(combined.len() - keep)
            }),
            final(self).samples@.len() <= PLAYBACK_BUFFER_CAP,
    {
        let ghost combined = self.samples@ + s@;
        let old_len: usize = self.samples.len();
        let total: usize = old_len + s.len();
        let drop_n: usize = if total > PLAYBACK_BUFFER_CAP {
            total - PLAYBACK_BUFFER_CAP
        } else {
            0
        };
        let mut nb: Vec<i16> = Vec::new();
        let mut j: usize = drop_n;
        while j < total
            invariant
                drop_n <= j <= total,
                old_len == self.samples@.len(),
                total == combined.len(),
                combined == self.samples@ + s@,
                nb@ =~= combined.subrange(drop_n as int, j as int),
            decreases total - j,
        {
            let v: i16 = if j < old_len {
                self.samples[j]
            } else {
                s[j - old_len]
            };
            nb.push(v);
            j = j + 1;
        }
        proof {
            assert(nb@ =~= combined.skip(drop_n as int));
        }
        self.samples = nb;
    }

    /// Whether a frame of `out_len` samples would underrun the buffer, so
    /// the caller should pull from its source instead.
    pub fn needs_pull(&self, out_len: usize) -> (r: bool)
        ensures
            r == (self.samples@.len() < out_len),
    {
        self.samples.len() < out_len
    }

    /// Drain up to `out_len` samples, padding with silence on underrun:
    /// what cannot be served is zero, and served samples leave the buffer.
    pub fn fill_or_silence(&mut self, out_len: usize) -> (r: Vec<i16>)
        requires
            out_len <= 0x10_0000,
        ensures
            r@.len() == out_len,
            ({
                let take = if old(self).samples@.len() <= out_len {
                    old(self).samples@.len() as int
                } else {
                    out_len as int
                };
                &&& forall|i: int| 0 <= i < take ==> r@[i] == old(self).samples@[i]
                &&& forall|i: int| take <= i < out_len ==> r@[i] == 0i16
                &&& final(self).samples@ == old(self).samples@.skip(take)
            }),
    {
        let blen: usize = self.samples.len();
        let take: usize = if blen <= out_len {
            blen
        } else {
            out_len
        };
        let mut out: Vec<i16> = Vec::new();
        let mut i: usize = 0;
        while i < take
            invariant
                i <= take <= blen,
                blen == self.samples@.len(),
                out@.len() == i,
                forall|j: int| 0 <= j < i ==> out@[j] == self.samples@[j],
            decreases take - i,
        {
            out.push(self.samples[i]);
            i = i + 1;
        }
        while i < out_len
            invariant
                take <= i <= out_len,
                blen == self.samples@.len(),
                out@.len() == i,
                forall|j: int| 0 <= j < take ==> out@[j] == self.samples@[j],
                forall|j: int| take <= j < i ==> out@[j] == 0i16,
            decreases out_len - i,
        {
            out.push(0i16);
            i = i + 1;
        }
        let mut rest: Vec<i16> = Vec::new();
        let mut j: usize = take;
        while j < blen
            invariant
                take <= j <= blen,
                blen == self.samples@.len(),
                rest@ =~= self.samples@.subrange(take as int, j as int),
            decreases blen - j,
        {
            rest.push(self.samples[j]);
            j = j + 1;
        }
        proof {
            assert(rest@ =~= self.samples@.skip(take as int));
        }
        self.samples = rest;
        out
    }

    /// Serve a frame from a pulled batch on underrun: the first `out_len`
    /// pulled samples (padded with silence), with any excess buffered for
    /// later. The existing buffer is left untouched.
    pub fn fill_with_pulled(&mut self, out_len: usize, pulled: &Vec<i16>) -> (r: Vec<i16>)
        requires
            out_len <= 0x10_0000,
            pulled@.len() <= 0x1000_0000,
            old(self).samples@.len() <= PLAYBACK_BUFFER_CAP,
        ensures
            r@.len() == out_len,
            forall|i: int|
                0 <= i < out_len ==> r@[i] == (if i < pulled@.len() {
                    pulled@[i]
                } else {
                    0i16
                }),
            pulled@.len() > out_len ==> final(self).samples@ == old(self).samples@
                + pulled@.skip(out_len as int),
            pulled@.len() <= out_len ==> final(self).samples@ == old(self).samples@,
    {
        let mut out: Vec<i16> = Vec::new();
        let mut i: usize = 0;
        while i < out_len
            invariant
                i <= out_len,
                out@.len() == i,
                forall|j: int|
                    0 <= j < i ==> out@[j] == (if j < pulled@.len() {
                        pulled@[j]
                    } else {
                        0i16
                    }),
            decreases out_len - i,
        {
            if i < pulled.len() {
                out.push(pulled[i]);
            } else {
                out.push(0i16);
            }
            i = i + 1;
        }
        if pulled.len() > out_len {
            let ghost before = self.samples@;
            let mut j: usize = out_len;
            let plen: usize = pulled.len();
            while j < plen
                invariant
                    out_len <= j <= plen,
                    plen == pulled@.len(),
                    self.samples@ =~= before + pulled@.subrange(out_len as int, j as int),
                decreases plen - j,
            {
                self.samples.push(pulled[j]);
                j = j + 1;
            }
            proof {
                assert(self.samples@ =~= before + pulled@.skip(out_len as int));
            }
        }
        out
    }
}

} // verus!
