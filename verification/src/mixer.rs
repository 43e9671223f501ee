//! Jitter buffer and mixer: per-peer queues of decoded samples combined into
//! one output frame with per-peer gain, loudness normalization and a
//! clip-safe master stage.
//!
//! Gains are Q15 fixed point: `GAIN_UNIT` (32768) stands for 1.0. Each active
//! peer contributes `tdiv(sample * gain * norm, 2^30)` per output sample,
//! where `norm` is `GAIN_UNIT` for a single active peer and
//! `isqrt(2^30 / n)` (about `GAIN_UNIT / sqrt(n)`) for `n > 1` active peers,
//! so the output does not grow with the number of simultaneous speakers. The
//! summed value is scaled by the master gain and clamped to the 16-bit range.

use vstd::prelude::*;

use crate::arith::{
    lemma_isqrt_bounds, lemma_tdiv_bound, spec_isqrt, sum_squares, isqrt64, tdiv,
};
use crate::level::rms_value;
use crate::SAMPLES_PER_FRAME;

verus! {

broadcast use vstd::string::to_string_from_display_ensures_for_str;

/// Q15 fixed-point unit: a gain of `GAIN_UNIT` means 1.0.
pub const GAIN_UNIT: u16 = 32768;

/// Target jitter depth in frames per peer.
pub const JITTER_BUFFER_FRAMES: usize = 3;

/// Target jitter depth in samples per peer.
pub const JITTER_BUFFER_SAMPLES: usize = 2880;

/// A peer's queue is trimmed from the front beyond twice the target depth.
pub const PEER_BUFFER_CAP: usize = 5760;

/// Upper bound on simultaneously buffered peers; enough for any mesh room
/// and it bounds both memory and the mixing sum.
pub const MAX_PEERS: usize = 256;

/// Queue of decoded samples for one remote peer, with its local gain and
/// mute flag.
pub struct PeerBuffer {
    /// Identifier of the remote peer.
    pub id: String,
    /// Decoded samples awaiting playback, oldest first.
    pub samples: Vec<i16>,
    /// Q15 playback gain for this peer.
    pub gain: u16,
    /// Locally muted: the peer is skipped when mixing.
    pub muted: bool,
}

/// Mixer over all peer buffers with a master gain.
pub struct AudioMixer {
    /// One buffer per known peer; ids are unique.
    pub peers: Vec<PeerBuffer>,
    /// Q15 master gain applied to the mixed sum.
    pub master: u16,
}

/// A peer takes part in the current mix only when it is not muted and holds
/// at least one full frame (otherwise it contributes silence and keeps its
/// samples).
pub open spec fn peer_active(p: PeerBuffer) -> bool {
    !p.muted && p.samples@.len() >= SAMPLES_PER_FRAME
}

/// Number of peers taking part in the mix.
pub open spec fn active_count(peers: Seq<PeerBuffer>) -> int
    decreases peers.len(),
{
    if peers.len() == 0 {
        0
    } else {
        active_count(peers.drop_last()) + if peer_active(peers.last()) {
            1int
        } else {
            0int
        }
    }
}

/// Q15 loudness-normalization factor for `n` active peers.
pub open spec fn norm_factor(n: int) -> int {
    if n <= 1 {
        GAIN_UNIT as int
    } else {
        spec_isqrt(0x4000_0000int / n)
    }
}

/// One peer's contribution to one output sample: sample scaled by its gain
/// and the normalization factor, both Q15.
pub open spec fn scaled_sample(s: int, gain: int, norm: int) -> int {
    tdiv(s * gain * norm, 0x4000_0000)
}

/// Sum of the contributions of all active peers at sample index `i`.
pub open spec fn mix_sum(peers: Seq<PeerBuffer>, norm: int, i: int) -> int
    decreases peers.len(),
{
    if peers.len() == 0 {
        0
    } else {
        mix_sum(peers.drop_last(), norm, i) + if peer_active(peers.last()) {
            scaled_sample(peers.last().samples@[i] as int, peers.last().gain as int, norm)
        } else {
            0int
        }
    }
}

/// Hard clamp to the valid 16-bit sample range.
pub open spec fn clamp16(x: int) -> int {
    if x < -32768 {
        -32768
    } else if x > 32767 {
        32767
    } else {
        x
    }
}

/// Final value of output sample `i`: the normalized sum scaled by the Q15
/// master gain and clamped.
pub open spec fn mixed_value(peers: Seq<PeerBuffer>, master: int, i: int) -> int {
    clamp16(tdiv(mix_sum(peers, norm_factor(active_count(peers)), i) * master, GAIN_UNIT as int))
}

impl PeerBuffer {
    /// Gain and queue depth stay within their documented bounds.
    pub open spec fn wf(&self) -> bool {
        &&& self.gain <= GAIN_UNIT
        &&& self.samples@.len() <= PEER_BUFFER_CAP
    }
}

impl AudioMixer {
    /// Invariant: bounded peer count, unique ids, bounded gains and queues.
    pub open spec fn wf(&self) -> bool {
        &&& self.peers@.len() <= MAX_PEERS
        &&& self.master <= GAIN_UNIT
        &&& forall|i: int| 0 <= i < self.peers@.len() ==> (#[trigger] self.peers@[i]).wf()
        &&& forall|i: int, j: int|
            0 <= i < j < self.peers@.len() ==> self.peers@[i].id@ != self.peers@[j].id@
    }

    /// Fresh mixer: no peers, master gain 1.0.
    pub fn new() -> (r: AudioMixer)
        ensures
            r.wf(),
            r.peers@.len() == 0,
            r.master == GAIN_UNIT,
    {
        AudioMixer { peers: Vec::new(), master: GAIN_UNIT }
    }

    /// Index of the buffer for `peer_id`, if one exists.
    fn find_peer(&self, peer_id: &str) -> (r: Option<usize>)
        requires
            self.wf(),
        ensures
            match r {
                Some(ix) => ix < self.peers@.len() && self.peers@[ix as int].id@ == peer_id@,
                None => forall|i: int|
                    0 <= i < self.peers@.len() ==> (#[trigger] self.peers@[i]).id@ != peer_id@,
            },
    {
        let key: String = peer_id.to_string();
        let n: usize = self.peers.len();
        let mut i: usize = 0;
        while i < n
            invariant
                n == self.peers@.len(),
                i <= n,
                key@ == peer_id@,
                forall|j: int| 0 <= j < i ==> (#[trigger] self.peers@[j]).id@ != peer_id@,
            decreases n - i,
        {
            if self.peers[i].id == key {
                return Some(i);
            }
            i = i + 1;
        }
        None
    }

    /// Append decoded samples for a peer, creating its buffer on first
    /// contact, and trim the front beyond the cap (drop-oldest).
    ///
    /// A new peer beyond `MAX_PEERS` is ignored to bound memory.
    pub fn add_peer_samples(&mut self, peer_id: &str, samples: &Vec<i16>)
        requires
            old(self).wf(),
            samples@.len() <= 0x1000_0000,
        ensures
            final(self).wf(),
            final(self).master == old(self).master,
            // known peer: its queue becomes the tail of old queue + new samples
            (exists|ix: int|
                0 <= ix < old(self).peers@.len() && old(self).peers@[ix].id@ == peer_id@) ==> {
                &&& final(self).peers@.len() == old(self).peers@.len()
                &&& forall|ix: int|
                    0 <= ix < old(self).peers@.len() && old(self).peers@[ix].id@ == peer_id@
                        ==> {
                        let combined = old(self).peers@[ix].samples@ + samples@;
                        let keep = if combined.len() <= PEER_BUFFER_CAP {
                            combined.len() as int
                        } else {
                            PEER_BUFFER_CAP as int
                        };
                        &&& (#[trigger] final(self).peers@[ix]).samples@ == combined.skip(
                            combined.len() - keep,
                        )
                        &&& final(self).peers@[ix].id@ == old(self).peers@[ix].id@
                        &&& final(self).peers@[ix].gain == old(self).peers@[ix].gain
                        &&& final(self).peers@[ix].muted == old(self).peers@[ix].muted
                    }
                &&& forall|j: int|
                    0 <= j < old(self).peers@.len() && old(self).peers@[j].id@ != peer_id@
                        ==> #[trigger] final(self).peers@[j] == old(self).peers@[j]
            },
            // unknown peer with room: appended with gain 1.0, unmuted
            ((forall|i: int|
                0 <= i < old(self).peers@.len() ==> (#[trigger] old(self).peers@[i]).id@
                    != peer_id@) && old(self).peers@.len() < MAX_PEERS) ==> {
                let combined = samples@;
                let keep = if combined.len() <= PEER_BUFFER_CAP {
                    combined.len() as int
                } else {
                    PEER_BUFFER_CAP as int
                };
                &&& final(self).peers@.len() == old(self).peers@.len() + 1
                &&& final(self).peers@.last().id@ == peer_id@
                &&& final(self).peers@.last().samples@ == combined.skip(combined.len() - keep)
                &&& final(self).peers@.last().gain == GAIN_UNIT
                &&& final(self).peers@.last().muted == false
                &&& forall|j: int|
                    0 <= j < old(self).peers@.len() ==> #[trigger] final(self).peers@[j] == old(
                        self,
                    ).peers@[j]
            },
            // unknown peer, table full: nothing changes
            ((forall|i: int|
                0 <= i < old(self).peers@.len() ==> (#[trigger] old(self).peers@[i]).id@
                    != peer_id@) && old(self).peers@.len() >= MAX_PEERS) ==> *final(self) == *old(
                self,
            ),
    {
        let found = self.find_peer(peer_id);
        match found {
            Some(ix) => {
                let old_len: usize = self.peers[ix].samples.len();
                let total: usize = old_len + samples.len();
                let drop_n: usize = if total > PEER_BUFFER_CAP {
                    total - PEER_BUFFER_CAP
                } else {
                    0
                };
                let ghost combined = self.peers@[ix as int].samples@ + samples@;
                let mut nb: Vec<i16> = Vec::new();
                let mut j: usize = drop_n;
                while j < total
                    invariant
                        drop_n <= j <= total,
                        ix < self.peers@.len(),
                        old_len == self.peers@[ix as int].samples@.len(),
                        total == combined.len(),
                        combined == self.peers@[ix as int].samples@ + samples@,
                        nb@ =~= combined.subrange(drop_n as int, j as int),
                    decreases total - j,
                {
                    let v: i16 = if j < old_len {
                        self.peers[ix].samples[j]
                    } else {
                        samples[j - old_len]
                    };
                    nb.push(v);
                    j = j + 1;
                }
                proof {
                    assert(nb@ =~= combined.skip(drop_n as int));
                }
                self.peers[ix].samples = nb;
            },
            None => {
                if self.peers.len() < MAX_PEERS {
                    let total: usize = samples.len();
                    let drop_n: usize = if total > PEER_BUFFER_CAP {
                        total - PEER_BUFFER_CAP
                    } else {
                        0
                    };
                    let mut nb: Vec<i16> = Vec::new();
                    let mut j: usize = drop_n;
                    while j < total
                        invariant
                            drop_n <= j <= total,
                            total == samples@.len(),
                            nb@ =~= samples@.subrange(drop_n as int, j as int),
                        decreases total - j,
                    {
                        nb.push(samples[j]);
                        j = j + 1;
                    }
                    proof {
                        assert(nb@ =~= samples@.skip(drop_n as int));
                    }
                    let entry = PeerBuffer {
                        id: peer_id.to_string(),
                        samples: nb,
                        gain: GAIN_UNIT,
                        muted: false,
                    };
                    self.peers.push(entry);
                }
            },
        }
    }

    /// Mix one frame of output. Equivalent to filling a frame of zeros and
    /// calling `mix_into` on it.
    pub fn get_mixed_samples(&mut self) -> (r: Vec<i16>)
        requires
            old(self).wf(),
        ensures
            final(self).wf(),
            r@.len() == SAMPLES_PER_FRAME,
            forall|i: int|
                0 <= i < SAMPLES_PER_FRAME ==> r@[i] as int == mixed_value(
                    old(self).peers@,
                    old(self).master as int,
                    i,
                ),
            final(self).master == old(self).master,
            final(self).peers@.len() == old(self).peers@.len(),
            forall|p: int|
                0 <= p < final(self).peers@.len() ==> {
                    &&& (#[trigger] final(self).peers@[p]).id@ == old(self).peers@[p].id@
                    &&& final(self).peers@[p].gain == old(self).peers@[p].gain
                    &&& final(self).peers@[p].muted == old(self).peers@[p].muted
                    &&& (peer_active(old(self).peers@[p]) ==> final(self).peers@[p].samples@ == old(
                        self,
                    ).peers@[p].samples@.skip(SAMPLES_PER_FRAME as int))
                    &&& (!peer_active(old(self).peers@[p]) ==> final(self).peers@[p].samples@ == old(
                        self,
                    ).peers@[p].samples@)
                },
    {
        let mut out: Vec<i16> = Vec::new();
        let mut i: usize = 0;
        while i < SAMPLES_PER_FRAME
            invariant
                i <= SAMPLES_PER_FRAME,
                out@.len() == i,
                forall|j: int| 0 <= j < i ==> out@[j] == 0i16,
            decreases SAMPLES_PER_FRAME - i,
        {
            out.push(0i16);
            i = i + 1;
        }
        self.mix_into(&mut out);
        out
    }

    /// Mix all active peers into `output` (filled to its own length; indexes
    /// past one frame stay zero). Active peers are drained by the mixed
    /// span; inactive peers keep their samples untouched.
    pub fn mix_into(&mut self, output: &mut Vec<i16>)
        requires
            old(self).wf(),
        ensures
            final(self).wf(),
            final(self).master == old(self).master,
            final(output)@.len() == old(output)@.len(),
            ({
                let k = if old(output)@.len() <= SAMPLES_PER_FRAME {
                    old(output)@.len() as int
                } else {
                    SAMPLES_PER_FRAME as int
                };
                &&& forall|i: int|
                    0 <= i < k ==> final(output)@[i] as int == mixed_value(
                        old(self).peers@,
                        old(self).master as int,
                        i,
                    )
                &&& forall|i: int| k <= i < final(output)@.len() ==> final(output)@[i] == 0i16
                &&& final(self).peers@.len() == old(self).peers@.len()
                &&& forall|p: int|
                    0 <= p < final(self).peers@.len() ==> {
                        &&& (#[trigger] final(self).peers@[p]).id@ == old(self).peers@[p].id@
                        &&& final(self).peers@[p].gain == old(self).peers@[p].gain
                        &&& final(self).peers@[p].muted == old(self).peers@[p].muted
                        &&& (peer_active(old(self).peers@[p]) ==> final(self).peers@[p].samples@ == old(
                            self,
                        ).peers@[p].samples@.skip(k))
                        &&& (!peer_active(old(self).peers@[p]) ==> final(self).peers@[p].samples@ == old(
                            self,
                        ).peers@[p].samples@)
                    }
            }),
    {
        let out_len: usize = output.len();
        let k: usize = if out_len <= SAMPLES_PER_FRAME {
            out_len
        } else {
            SAMPLES_PER_FRAME
        };
        let ghost peers0 = self.peers@;
        // count the active peers for the normalization factor
        let n: usize = self.peers.len();
        let mut cnt: usize = 0;
        let mut pi: usize = 0;
        proof {
            assert(peers0.take(0) =~= Seq::<PeerBuffer>::empty());
        }
        while pi < n
            invariant
                pi <= n,
                n == self.peers@.len(),
                self.peers@ == peers0,
                cnt == active_count(peers0.take(pi as int)),
                cnt <= pi,
            decreases n - pi,
        {
            let pb = &self.peers[pi];
            proof {
                assert(peers0.take(pi + 1).drop_last() =~= peers0.take(pi as int));
            }
            if !pb.muted && pb.samples.len() >= SAMPLES_PER_FRAME {
                cnt = cnt + 1;
            }
            pi = pi + 1;
        }
        proof {
            assert(peers0.take(n as int) =~= peers0);
        }
        let norm: u64 = if cnt <= 1 {
            GAIN_UNIT as u64
        } else {
            isqrt64(0x4000_0000u64 / (cnt as u64))
        };
        proof {
            if cnt > 1 {
                let x = 0x4000_0000int / cnt as int;
                assert(1 <= x <= 0x4000_0000) by (nonlinear_arith)
                    requires
                        2 <= cnt as int <= 0x4000_0000,
                        x == 0x4000_0000int / cnt as int,
                ;
                lemma_isqrt_bounds(x);
                let r = spec_isqrt(x);
                if r < 1 {
                    assert((r + 1) * (r + 1) <= 1) by (nonlinear_arith)
                        requires
                            0 <= r < 1,
                    ;
                }
                if r > GAIN_UNIT as int {
                    assert(r * r > 0x4000_0000) by (nonlinear_arith)
                        requires
                            r > 32768,
                    ;
                }
            }
        }
        let ghost gnorm = norm_factor(active_count(peers0));
        // accumulate contributions of each active peer
        let mut acc: Vec<i64> = Vec::new();
        let mut i: usize = 0;
        while i < k
            invariant
                i <= k,
                acc@.len() == i,
                forall|j: int| 0 <= j < i ==> acc@[j] == 0i64,
            decreases k - i,
        {
            acc.push(0i64);
            i = i + 1;
        }
        proof {
            assert forall|j: int| 0 <= j < k implies acc@[j] as int == mix_sum(
                peers0.take(0),
                gnorm,
                j,
            ) by {
                assert(peers0.take(0) =~= Seq::<PeerBuffer>::empty());
            }
        }
        let mut p: usize = 0;
        while p < n
            invariant
                p <= n,
                n == self.peers@.len() == peers0.len(),
                peers0 == old(self).peers@,
                self.master == old(self).master,
                old(self).wf(),
                k <= SAMPLES_PER_FRAME,
                norm == gnorm,
                0 < gnorm <= GAIN_UNIT,
                acc@.len() == k,
                forall|j: int|
                    0 <= j < k ==> acc@[j] as int == mix_sum(peers0.take(p as int), gnorm, j),
                forall|j: int|
                    0 <= j < k ==> -(p as int) * 32768 <= #[trigger] acc@[j] <= (p as int) * 32768,
                // processed peers are drained; the rest are untouched
                forall|q: int|
                    0 <= q < n ==> {
                        &&& (#[trigger] self.peers@[q]).id@ == peers0[q].id@
                        &&& self.peers@[q].gain == peers0[q].gain
                        &&& self.peers@[q].muted == peers0[q].muted
                        &&& (q < p && peer_active(peers0[q]) ==> self.peers@[q].samples@ ==
                            peers0[q].samples@.skip(k as int))
                        &&& (q < p && !peer_active(peers0[q]) ==> self.peers@[q].samples@ ==
                            peers0[q].samples@)
                        &&& (q >= p ==> self.peers@[q] == peers0[q])
                    },
            decreases n - p,
        {
            let pb_muted: bool = self.peers[p].muted;
            let pb_len: usize = self.peers[p].samples.len();
            proof {
                assert(peers0.take(p + 1).drop_last() =~= peers0.take(p as int));
            }
            if !pb_muted && pb_len >= SAMPLES_PER_FRAME {
                let gain: u16 = self.peers[p].gain;
                let ghost mid_peers = self.peers@;
                let mut i: usize = 0;
                while i < k
                    invariant
                        i <= k,
                        k <= SAMPLES_PER_FRAME,
                        p < n == self.peers@.len() == peers0.len(),
                        n <= MAX_PEERS,
                        self.peers@[p as int] == peers0[p as int],
                        peer_active(peers0[p as int]),
                        gain == peers0[p as int].gain,
                        gain <= GAIN_UNIT,
                        0 < gnorm <= GAIN_UNIT,
                        norm == gnorm,
                        acc@.len() == k,
                        forall|j: int|
                            0 <= j < i ==> acc@[j] as int == mix_sum(
                                peers0.take(p as int),
                                gnorm,
                                j,
                            ) + scaled_sample(
                                peers0[p as int].samples@[j] as int,
                                gain as int,
                                gnorm,
                            ),
                        forall|j: int|
                            i <= j < k ==> acc@[j] as int == mix_sum(
                                peers0.take(p as int),
                                gnorm,
                                j,
                            ),
                        forall|j: int|
                            0 <= j < k ==> -(p as int) * 32768 - 32768 <= #[trigger] acc@[j] <= (
                            p as int) * 32768 + 32768,
                        forall|j: int|
                            i <= j < k ==> -(p as int) * 32768 <= #[trigger] acc@[j] <= (
                            p as int) * 32768,
                        self.peers@ == mid_peers,
                    decreases k - i,
                {
                    let s: i16 = self.peers[p].samples[i];
                    proof {
                        assert(-0x4000_0000i64 <= (s as int) * (gain as int) <= 0x4000_0000i64)
                            by (nonlinear_arith)
                            requires
                                -32768 <= s as int <= 32767,
                                0 <= gain as int <= 32768,
                        ;
                        assert(-0x2000_0000_0000i64 <= (s as int) * (gain as int) * (gnorm)
                            <= 0x2000_0000_0000i64) by (nonlinear_arith)
                            requires
                                -32768 <= s as int <= 32767,
                                0 <= gain as int <= 32768,
                                0 < gnorm <= 32768,
                        ;
                        lemma_tdiv_bound(
                            (s as int) * (gain as int) * gnorm,
                            0x4000_0000,
                            0x2000_0000_0000,
                        );
                        assert(0x2000_0000_0000int / 0x4000_0000int == 32768int);
                    }
                    let prod: i64 = (s as i64) * (gain as i64) * (norm as i64);
                    let c: i64 = prod / 0x4000_0000i64;
                    let a: i64 = acc[i];
                    acc[i] = a + c;
                    i = i + 1;
                }
                // drain one mixed span from this peer's queue
                let mut nb: Vec<i16> = Vec::new();
                let mut j: usize = k;
                while j < pb_len
                    invariant
                        k <= j <= pb_len,
                        p < n == self.peers@.len(),
                        n == peers0.len(),
                        self.peers@[p as int] == peers0[p as int],
                        pb_len == peers0[p as int].samples@.len(),
                        nb@ =~= peers0[p as int].samples@.subrange(k as int, j as int),
                    decreases pb_len - j,
                {
                    nb.push(self.peers[p].samples[j]);
                    j = j + 1;
                }
                proof {
                    assert(nb@ =~= peers0[p as int].samples@.skip(k as int));
                }
                self.peers[p].samples = nb;
            }
            p = p + 1;
        }
        proof {
            assert(peers0.take(n as int) =~= peers0);
        }
        // master stage: scale the sum and clamp into the output
        let master: u16 = self.master;
        let mut i: usize = 0;
        while i < k
            invariant
                i <= k,
                k <= SAMPLES_PER_FRAME,
                k <= out_len == output@.len(),
                n == peers0.len(),
                master == old(self).master,
                master <= GAIN_UNIT,
                acc@.len() == k,
                output@.len() == old(output)@.len(),
                forall|j: int| 0 <= j < k ==> acc@[j] as int == mix_sum(peers0, gnorm, j),
                forall|j: int|
                    0 <= j < k ==> -(n as int) * 32768 <= #[trigger] acc@[j] <= (n as int) * 32768,
                n <= MAX_PEERS,
                gnorm == norm_factor(active_count(peers0)),
                forall|j: int|
                    0 <= j < i ==> output@[j] as int == mixed_value(peers0, master as int, j),
                forall|j: int| i <= j < output@.len() ==> output@[j] == old(output)@[j],
            decreases k - i,
        {
            let a: i64 = acc[i];
            proof {
                assert(-(256int * 32768) * 32768 <= a * master && a * master <= (256int
                    * 32768) * 32768) by (nonlinear_arith)
                    requires
                        -(256int * 32768) <= a as int <= 256int * 32768,
                        0 <= master as int <= 32768,
                ;
                lemma_tdiv_bound((a as int) * (master as int), 32768, 256int * 32768 * 32768);
            }
            let scaled: i64 = (a * (master as i64)) / (GAIN_UNIT as i64);
            let v: i16 = if scaled < -32768 {
                -32768i16
            } else if scaled > 32767 {
                32767i16
            } else {
                scaled as i16
            };
            output[i] = v;
            i = i + 1;
        }
        // anything past one frame stays silent
        let mut i2: usize = k;
        while i2 < out_len
            invariant
                k <= i2 <= out_len == output@.len(),
                output@.len() == old(output)@.len(),
                forall|j: int|
                    0 <= j < k ==> output@[j] as int == mixed_value(
                        peers0,
                        old(self).master as int,
                        j,
                    ),
                forall|j: int| k <= j < i2 ==> output@[j] == 0i16,
            decreases out_len - i2,
        {
            output[i2] = 0i16;
            i2 = i2 + 1;
        }
    }

    /// Set a peer's playback gain, clamped to at most 1.0. Unknown peers are
    /// ignored.
    pub fn set_peer_volume(&mut self, peer_id: &str, gain: u16)
        requires
            old(self).wf(),
        ensures
            final(self).wf(),
            final(self).master == old(self).master,
            final(self).peers@.len() == old(self).peers@.len(),
            forall|i: int|
                0 <= i < old(self).peers@.len() ==> {
                    &&& (#[trigger] final(self).peers@[i]).id@ == old(self).peers@[i].id@
                    &&& final(self).peers@[i].samples@ == old(self).peers@[i].samples@
                    &&& final(self).peers@[i].muted == old(self).peers@[i].muted
                    &&& (old(self).peers@[i].id@ == peer_id@ ==> final(self).peers@[i].gain
                        == (if gain <= GAIN_UNIT {
                        gain
                    } else {
                        GAIN_UNIT
                    }))
                    &&& (old(self).peers@[i].id@ != peer_id@ ==> final(self).peers@[i].gain
                        == old(self).peers@[i].gain)
                },
    {
        let g: u16 = if gain <= GAIN_UNIT {
            gain
        } else {
            GAIN_UNIT
        };
        let found = self.find_peer(peer_id);
        if let Some(ix) = found {
            self.peers[ix].gain = g;
        }
    }

    /// Mute or unmute a peer locally. Unknown peers are ignored.
    pub fn set_peer_muted(&mut self, peer_id: &str, muted: bool)
        requires
            old(self).wf(),
        ensures
            final(self).wf(),
            final(self).master == old(self).master,
            final(self).peers@.len() == old(self).peers@.len(),
            forall|i: int|
                0 <= i < old(self).peers@.len() ==> {
                    &&& (#[trigger] final(self).peers@[i]).id@ == old(self).peers@[i].id@
                    &&& final(self).peers@[i].samples@ == old(self).peers@[i].samples@
                    &&& final(self).peers@[i].gain == old(self).peers@[i].gain
                    &&& (old(self).peers@[i].id@ == peer_id@ ==> final(self).peers@[i].muted
                        == muted)
                    &&& (old(self).peers@[i].id@ != peer_id@ ==> final(self).peers@[i].muted
                        == old(self).peers@[i].muted)
                },
    {
        let found = self.find_peer(peer_id);
        if let Some(ix) = found {
            self.peers[ix].muted = muted;
        }
    }

    /// Set the master gain, clamped to at most 1.0.
    pub fn set_master_volume(&mut self, gain: u16)
        requires
            old(self).wf(),
        ensures
            final(self).wf(),
            final(self).peers@ == old(self).peers@,
            final(self).master == (if gain <= GAIN_UNIT {
                gain
            } else {
                GAIN_UNIT
            }),
    {
        self.master = if gain <= GAIN_UNIT {
            gain
        } else {
            GAIN_UNIT
        };
    }

    /// Current master gain.
    pub fn get_master_volume(&self) -> (r: u16)
        ensures
            r == self.master,
    {
        self.master
    }

    /// Drop a peer's buffer. Removing an unknown peer changes nothing.
    pub fn remove_peer(&mut self, peer_id: &str)
        requires
            old(self).wf(),
        ensures
            final(self).wf(),
            final(self).master == old(self).master,
            (forall|i: int|
                0 <= i < old(self).peers@.len() ==> (#[trigger] old(self).peers@[i]).id@
                    != peer_id@) ==> *final(self) == *old(self),
            forall|ix: int|
                0 <= ix < old(self).peers@.len() && old(self).peers@[ix].id@ == peer_id@
                    ==> final(self).peers@ == old(self).peers@.remove(ix),
    {
        let found = self.find_peer(peer_id);
        if let Some(ix) = found {
            let ghost peers0 = self.peers@;
            self.peers.remove(ix);
            proof {
                assert forall|i: int, j: int|
                    0 <= i < j < self.peers@.len() implies self.peers@[i].id@
                    != self.peers@[j].id@ by {
                    assert(self.peers@[i] == if i < ix {
                        peers0[i]
                    } else {
                        peers0[i + 1]
                    });
                    assert(self.peers@[j] == if j < ix {
                        peers0[j]
                    } else {
                        peers0[j + 1]
                    });
                }
                assert forall|ix2: int|
                    0 <= ix2 < peers0.len() && peers0[ix2].id@ == peer_id@ implies self.peers@
                    =~= peers0.remove(ix2) by {
                    assert(ix2 == ix);
                }
            }
        }
    }

    /// Drop every peer buffer.
    pub fn clear(&mut self)
        requires
            old(self).wf(),
        ensures
            final(self).wf(),
            final(self).master == old(self).master,
            final(self).peers@.len() == 0,
    {
        self.peers.clear();
    }

    /// Ids of all known peers, in insertion order.
    pub fn get_peers(&self) -> (r: Vec<String>)
        requires
            self.wf(),
        ensures
            r@.len() == self.peers@.len(),
            forall|i: int| 0 <= i < r@.len() ==> r@[i]@ == (#[trigger] self.peers@[i]).id@,
    {
        let mut out: Vec<String> = Vec::new();
        let mut i: usize = 0;
        let n: usize = self.peers.len();
        while i < n
            invariant
                i <= n,
                n == self.peers@.len(),
                out@.len() == i,
                forall|j: int| 0 <= j < i ==> out@[j]@ == (#[trigger] self.peers@[j]).id@,
            decreases n - i,
        {
            out.push(self.peers[i].id.clone());
            i = i + 1;
        }
        out
    }

    /// Whether a peer currently holds any buffered samples.
    pub fn peer_has_audio(&self, peer_id: &str) -> (r: bool)
        requires
            self.wf(),
        ensures
            r == exists|i: int|
                0 <= i < self.peers@.len() && (#[trigger] self.peers@[i]).id@ == peer_id@
                    && self.peers@[i].samples@.len() > 0,
    {
        let found = self.find_peer(peer_id);
        match found {
            Some(ix) => {
                let has = self.peers[ix].samples.len() > 0;
                proof {
                    if has {
                        assert(self.peers@[ix as int].id@ == peer_id@
                            && self.peers@[ix as int].samples@.len() > 0);
                    }
                }
                has
            },
            None => false,
        }
    }

    /// Integer RMS of a peer's most recent frame's worth of buffered samples,
    /// computed without consuming them. Unknown or empty peers meter as 0.
    pub fn get_peer_level(&self, peer_id: &str) -> (r: u32)
        requires
            self.wf(),
        ensures
            r <= 32768,
            (forall|i: int|
                0 <= i < self.peers@.len() ==> (#[trigger] self.peers@[i]).id@ != peer_id@)
                ==> r == 0,
            forall|ix: int|
                0 <= ix < self.peers@.len() && (#[trigger] self.peers@[ix]).id@ == peer_id@
                    ==> {
                    let buf = self.peers@[ix].samples@;
                    let cnt = if buf.len() <= SAMPLES_PER_FRAME {
                        buf.len() as int
                    } else {
                        SAMPLES_PER_FRAME as int
                    };
                    r == (if cnt == 0 {
                        0int
                    } else {
                        spec_isqrt(sum_squares(buf.skip(buf.len() - cnt)) / cnt)
                    })
                },
    {
        let found = self.find_peer(peer_id);
        match found {
            Some(ix) => {
                let blen: usize = self.peers[ix].samples.len();
                let cnt: usize = if blen <= SAMPLES_PER_FRAME {
                    blen
                } else {
                    SAMPLES_PER_FRAME
                };
                let start: usize = blen - cnt;
                let mut recent: Vec<i16> = Vec::new();
                let mut j: usize = start;
                while j < blen
                    invariant
                        start <= j <= blen,
                        ix < self.peers@.len(),
                        blen == self.peers@[ix as int].samples@.len(),
                        recent@ =~= self.peers@[ix as int].samples@.subrange(
                            start as int,
                            j as int,
                        ),
                    decreases blen - j,
                {
                    recent.push(self.peers[ix].samples[j]);
                    j = j + 1;
                }
                proof {
                    assert(recent@ =~= self.peers@[ix as int].samples@.skip(start as int));
                    assert(recent@.take(cnt as int) =~= recent@);
                }
                rms_value(&recent, cnt)
            },
            None => 0,
        }
    }
}

/// Mixing an empty peer set produces silence at every sample.
pub proof fn lemma_mix_empty(master: int, i: int)
    ensures
        mixed_value(Seq::<PeerBuffer>::empty(), master, i) == 0,
{
    assert(mix_sum(Seq::<PeerBuffer>::empty(), norm_factor(0), i) == 0);
    assert(tdiv(0 * master, GAIN_UNIT as int) == 0) by {
        assert(0 * master == 0) by (nonlinear_arith);
        assert(0int / 32768int == 0);
    }
}

/// One active peer at gain 1.0 and master gain 1.0 is reproduced unchanged:
/// the normalization factor for a single active peer is 1.0 and the clamp
/// cannot fire on an in-range sample.
pub proof fn lemma_mix_single_peer(peers: Seq<PeerBuffer>, i: int)
    requires
        peers.len() == 1,
        peer_active(peers[0]),
        peers[0].gain == GAIN_UNIT,
        0 <= i < peers[0].samples@.len(),
    ensures
        mixed_value(peers, GAIN_UNIT as int, i) == peers[0].samples@[i] as int,
{
    let s = peers[0].samples@[i] as int;
    assert(peers.drop_last() =~= Seq::<PeerBuffer>::empty());
    assert(peers.last() == peers[0]);
    assert(active_count(Seq::<PeerBuffer>::empty()) == 0);
    assert(mix_sum(Seq::<PeerBuffer>::empty(), 32768, i) == 0);
    assert(active_count(peers) == 1);
    assert(norm_factor(1) == 32768);
    assert(mix_sum(peers, 32768, i) == scaled_sample(s, 32768, 32768));
    assert(s * 32768 * 32768 == s * 0x4000_0000) by (nonlinear_arith);
    crate::arith::lemma_tdiv_exact(s, 0x4000_0000);
    assert(scaled_sample(s, 32768, 32768) == s);
    crate::arith::lemma_tdiv_exact(s, 32768);
    assert(tdiv(s * 32768, 32768) == s);
    assert(clamp16(s) == s);
}

/// With `n` active peers all contributing the same amplitude `a` at the same
/// gain, the pre-master sum is `n` times one contribution: the per-peer
/// factor `isqrt(2^30 / n)` is about `2^15 / sqrt(n)`, so the summed
/// loudness grows like `n / sqrt(n)` rather than `n`.
pub proof fn lemma_mix_uniform_peers(peers: Seq<PeerBuffer>, a: int, gain: int, norm: int, i: int)
    requires
        forall|p: int|
            0 <= p < peers.len() ==> {
                &&& peer_active(#[trigger] peers[p])
                &&& peers[p].samples@[i] as int == a
                &&& peers[p].gain as int == gain
            },
    ensures
        active_count(peers) == peers.len(),
        mix_sum(peers, norm, i) == peers.len() * scaled_sample(a, gain, norm),
    decreases peers.len(),
{
    if peers.len() == 0 {
        assert(0int * scaled_sample(a, gain, norm) == 0) by (nonlinear_arith);
    } else {
        let rest = peers.drop_last();
        lemma_mix_uniform_peers(rest, a, gain, norm, i);
        assert(peers.last() == peers[peers.len() - 1]);
        assert(mix_sum(peers, norm, i) == rest.len() * scaled_sample(a, gain, norm)
            + scaled_sample(a, gain, norm));
        assert(rest.len() * scaled_sample(a, gain, norm) + scaled_sample(a, gain, norm)
            == peers.len() * scaled_sample(a, gain, norm)) by (nonlinear_arith)
            requires
                rest.len() + 1 == peers.len(),
        ;
    }
}

} // verus!
