//! Linear-interpolation resampling between an arbitrary device rate and the
//! fixed internal processing rate.
//!
//! The resampler is a pure function and keeps no state between calls; callers
//! must keep the ratio direction consistent across calls, since boundary
//! samples are not carried over. The edge index clamps at the last valid
//! sample so no read is out of range.

use vstd::prelude::*;

use crate::arith::{lemma_tdiv_bound, tdiv};

verus! {

/// Number of output samples: `ceil(len * dst / src)`.
pub open spec fn resampled_len(len: int, dst: int, src: int) -> int
    recommends
        src > 0,
{
    (len * dst + src - 1) / src
}

/// Linear interpolation from `s1` toward `s2` by `frac / den`.
pub open spec fn lerp(s1: int, s2: int, frac: int, den: int) -> int
    recommends
        den > 0,
        0 <= frac < den,
{
    s1 + tdiv((s2 - s1) * frac, den)
}

/// Value of output sample `i`: interpolation between the two nearest source
/// samples at source position `i * src / dst`.
pub open spec fn resampled_at(s: Seq<i16>, dst: int, src: int, i: int) -> int
    recommends
        dst > 0,
        src > 0,
        0 <= i,
        (i * src) / dst < s.len(),
{
    let idx = (i * src) / dst;
    let frac = (i * src) % dst;
    let nxt = if idx + 1 < s.len() {
        idx + 1
    } else {
        s.len() - 1
    };
    lerp(s[idx] as int, s[nxt] as int, frac, dst)
}

/// The resampled output as a whole sequence.
pub open spec fn resampled_seq(s: Seq<i16>, dst: int, src: int) -> Seq<i16>
    recommends
        dst > 0,
        src > 0,
{
    Seq::new(
        resampled_len(s.len() as int, dst, src) as nat,
        |i: int| resampled_at(s, dst, src, i) as i16,
    )
}

/// Interpolation never leaves the interval spanned by its two endpoints.
pub proof fn lemma_lerp_range(s1: int, s2: int, frac: int, den: int)
    requires
        den > 0,
        0 <= frac < den,
    ensures
        s1 <= s2 ==> s1 <= lerp(s1, s2, frac, den) <= s2,
        s2 <= s1 ==> s2 <= lerp(s1, s2, frac, den) <= s1,
{
    let d = s2 - s1;
    if d >= 0 {
        assert(0 <= d * frac <= d * den) by (nonlinear_arith)
            requires
                0 <= frac < den,
                d >= 0,
        ;
        assert(0 <= (d * frac) / den <= d) by (nonlinear_arith)
            requires
                den > 0,
                0 <= d * frac <= d * den,
                d >= 0,
        ;
    } else {
        assert(0 <= (-d) * frac <= (-d) * den) by (nonlinear_arith)
            requires
                0 <= frac < den,
                -d >= 0,
        ;
        assert(0 <= ((-d) * frac) / den <= -d) by (nonlinear_arith)
            requires
                den > 0,
                0 <= (-d) * frac <= (-d) * den,
                -d >= 0,
        ;
        assert((-(d * frac)) == (-d) * frac) by (nonlinear_arith);
    }
}

/// Resample `samples` from `src_rate` to `dst_rate` by linear interpolation.
///
/// With equal rates (ratio 1) the result is a copy of the input.
pub fn resample(samples: &Vec<i16>, dst_rate: u32, src_rate: u32) -> (r: Vec<i16>)
    requires
        0 < src_rate <= 1_000_000,
        0 < dst_rate <= 1_000_000,
        samples@.len() <= 0x1000_0000,
        samples@.len() * dst_rate <= src_rate * 0x1000_0000,
    ensures
        r@.len() == resampled_len(samples@.len() as int, dst_rate as int, src_rate as int),
        forall|i: int|
            0 <= i < r@.len() ==> r@[i] as int == resampled_at(
                samples@,
                dst_rate as int,
                src_rate as int,
                i,
            ),
        r@ == resampled_seq(samples@, dst_rate as int, src_rate as int),
        dst_rate == src_rate ==> r@ == samples@,
{
    let ghost gl = samples@.len() as int;
    let ghost gd = dst_rate as int;
    let ghost gs = src_rate as int;
    let len: usize = samples.len();
    let dst: u64 = dst_rate as u64;
    let src: u64 = src_rate as u64;
    proof {
        assert(gs * 0x1000_0000 <= 1_000_000 * 0x1000_0000) by (nonlinear_arith)
            requires
                0 < gs <= 1_000_000,
        ;
        assert((gl * gd + gs - 1) / gs <= 0x1000_0000) by (nonlinear_arith)
            requires
                gl * gd <= gs * 0x1000_0000,
                gl >= 0,
                gd > 0,
                gs > 0,
        ;
        assert((gl * gd + gs - 1) / gs >= 0) by (nonlinear_arith)
            requires
                gl >= 0,
                gd > 0,
                gs > 0,
        ;
    }
    let out_len_w: u64 = ((len as u64) * dst + src - 1) / src;
    let out_len: usize = out_len_w as usize;
    let mut out: Vec<i16> = Vec::new();
    let mut i: usize = 0;
    while i < out_len
        invariant
            0 < gs <= 1_000_000,
            0 < gd <= 1_000_000,
            src == gs,
            dst == gd,
            gl == samples@.len(),
            len == gl,
            gl <= 0x1000_0000,
            out_len == resampled_len(gl, gd, gs),
            out_len <= 0x1000_0000,
            gl * gd <= gs * 0x1000_0000,
            i <= out_len,
            out@.len() == i,
            forall|j: int| 0 <= j < i ==> out@[j] as int == resampled_at(samples@, gd, gs, j),
        decreases out_len - i,
    {
        proof {
            // i < out_len = ceil(len * dst / src) forces the source index under len
            assert(i * gs < gl * gd) by (nonlinear_arith)
                requires
                    0 <= i < (gl * gd + gs - 1) / gs,
                    gs > 0,
                    gl >= 0,
                    gd > 0,
            ;
            assert((i * gs) / gd < gl) by (nonlinear_arith)
                requires
                    i * gs < gl * gd,
                    i >= 0,
                    gs > 0,
                    gd > 0,
            ;
        }
        let pos: u64 = (i as u64) * src;
        let idx: usize = (pos / dst) as usize;
        let frac: u64 = pos % dst;
        let nxt: usize = if idx + 1 < len {
            idx + 1
        } else {
            len - 1
        };
        let s1: i16 = samples[idx];
        let s2: i16 = samples[nxt];
        let diff: i64 = (s2 as i64) - (s1 as i64);
        proof {
            let gdiff = diff as int;
            let gfrac = frac as int;
            assert(-65535int * 1_000_000 <= gdiff * gfrac <= 65535int * 1_000_000)
                by (nonlinear_arith)
                requires
                    -65535 <= gdiff <= 65535,
                    0 <= gfrac < 1_000_000,
            ;
            lemma_tdiv_bound(gdiff * gfrac, gd, 65535int * 1_000_000);
            lemma_lerp_range(s1 as int, s2 as int, frac as int, gd);
        }
        let interp: i64 = (s1 as i64) + (diff * (frac as i64)) / (dst as i64);
        out.push(interp as i16);
        i = i + 1;
    }
    proof {
        assert forall|j: int| 0 <= j < out@.len() implies out@[j] == resampled_seq(
            samples@,
            gd,
            gs,
        )[j] by {
            assert(out@[j] as int == resampled_at(samples@, gd, gs, j));
        }
        assert(out@ =~= resampled_seq(samples@, gd, gs));
        if gd == gs {
            assert(gl * gd <= gl * gd + gs - 1 < (gl + 1) * gd) by (nonlinear_arith)
                requires
                    gd == gs,
                    gd > 0,
                    gl >= 0,
            ;
            assert((gl * gd + gs - 1) / gs == gl) by (nonlinear_arith)
                requires
                    gd == gs,
                    gs > 0,
                    gl >= 0,
                    gl * gs <= gl * gd + gs - 1 < (gl + 1) * gs,
            ;
            assert forall|j: int| 0 <= j < out@.len() implies out@[j] == samples@[j] by {
                assert(j * gs == gs * j) by (nonlinear_arith);
                assert((j * gs) / gd == j && (j * gs) % gd == 0) by (nonlinear_arith)
                    requires
                        gd == gs,
                        gs > 0,
                        j >= 0,
                ;
                assert(tdiv(0, gd) == 0);
            }
            assert(out@ =~= samples@);
        }
    }
    out
}

} // verus!
