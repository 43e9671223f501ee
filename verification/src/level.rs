//! Loudness metering: integer root-mean-square of a window of samples and
//! the speaking flag derived from it.

use vstd::prelude::*;

use crate::arith::{isqrt64, spec_isqrt, sum_squares};

verus! {

/// RMS value (in sample units) above which a frame counts as speech.
/// This is about 2% of full scale.
pub const SPEAKING_THRESHOLD_RMS: u32 = 655;

/// Integer RMS over the first `count` samples: `isqrt(sum(s^2) / count)`.
/// An empty window meters as silence.
pub fn rms_value(samples: &Vec<i16>, count: usize) -> (r: u32)
    requires
        count <= samples@.len(),
        count <= 0x10000,
    ensures
        count == 0 ==> r == 0,
        count > 0 ==> r == spec_isqrt(sum_squares(samples@.take(count as int)) / count as int),
        r <= 32768,
{
    if count == 0 {
        return 0;
    }
    let mut sum: u64 = 0;
    let mut i: usize = 0;
    proof {
        assert(samples@.take(0) =~= Seq::<i16>::empty());
    }
    while i < count
        invariant
            i <= count,
            count <= samples@.len(),
            count <= 0x10000,
            sum == sum_squares(samples@.take(i as int)),
            sum <= i * 0x4000_0000,
        decreases count - i,
    {
        let s: i16 = samples[i];
        proof {
            assert(0 <= (s as int) * (s as int) <= 0x4000_0000) by (nonlinear_arith)
                requires
                    -32768 <= s as int <= 32767,
            ;
            assert(samples@.take(i + 1).drop_last() =~= samples@.take(i as int));
            assert(i * 0x4000_0000 <= 0x10000 * 0x4000_0000) by (nonlinear_arith)
                requires
                    0 <= i <= 0x10000,
            ;
        }
        let sq: u64 = ((s as i64) * (s as i64)) as u64;
        sum = sum + sq;
        i = i + 1;
    }
    let mean: u64 = sum / (count as u64);
    proof {
        assert((sum as int) / (count as int) <= 0x4000_0000) by (nonlinear_arith)
            requires
                0 < count as int,
                0 <= sum as int <= (count as int) * 0x4000_0000,
        ;
    }
    let r: u64 = isqrt64(mean);
    proof {
        crate::arith::lemma_isqrt_bounds(mean as int);
        if r > 32768 {
            assert(r * r > 32768 * 32768) by (nonlinear_arith)
                requires
                    r > 32768,
            ;
        }
    }
    r as u32
}

/// A frame counts as speech only when unmuted and its RMS clears the
/// threshold.
pub fn speaking_flag(rms: u32, muted: bool) -> (r: bool)
    ensures
        r == (!muted && rms > SPEAKING_THRESHOLD_RMS),
{
    !muted && rms > SPEAKING_THRESHOLD_RMS
}

} // verus!
