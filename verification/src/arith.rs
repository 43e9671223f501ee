//! Integer helpers shared by the signal-processing stages: truncating
//! division (the semantics of `/` on the machine integers) and an integer
//! square root, with the lemmas the mixer and level meter need.

use vstd::prelude::*;

verus! {

/// Division truncating toward zero, the semantics of `/` on `i64`.
pub open spec fn tdiv(a: int, b: int) -> int
    recommends
        b > 0,
{
    if a >= 0 {
        a / b
    } else {
        -((-a) / b)
    }
}

/// Largest `r` with `r * r <= n` (0 for negative arguments).
pub open spec fn spec_isqrt(n: int) -> int
    decreases n,
{
    if n <= 0 {
        0
    } else {
        let r = spec_isqrt(n - 1);
        if (r + 1) * (r + 1) <= n {
            r + 1
        } else {
            r
        }
    }
}

/// `spec_isqrt` is indeed the integer square root.
pub proof fn lemma_isqrt_bounds(n: int)
    requires
        n >= 0,
    ensures
        spec_isqrt(n) >= 0,
        spec_isqrt(n) * spec_isqrt(n) <= n,
        n < (spec_isqrt(n) + 1) * (spec_isqrt(n) + 1),
    decreases n,
{
    if n > 0 {
        lemma_isqrt_bounds(n - 1);
        let r = spec_isqrt(n - 1);
        if (r + 1) * (r + 1) <= n {
            assert((r + 2) * (r + 2) > (r + 1) * (r + 1)) by (nonlinear_arith)
                requires
                    r >= 0,
            ;
        }
    }
}

/// Any `r` in square-root position equals `spec_isqrt(n)`.
pub proof fn lemma_isqrt_unique(n: int, r: int)
    requires
        n >= 0,
        r >= 0,
        r * r <= n,
        n < (r + 1) * (r + 1),
    ensures
        r == spec_isqrt(n),
{
    lemma_isqrt_bounds(n);
    let s = spec_isqrt(n);
    if r < s {
        assert(r + 1 <= s);
        assert((r + 1) * (r + 1) <= s * s) by (nonlinear_arith)
            requires
                0 <= r + 1 <= s,
        ;
    }
    if s < r {
        assert(s + 1 <= r);
        assert((s + 1) * (s + 1) <= r * r) by (nonlinear_arith)
            requires
                0 <= s + 1 <= r,
        ;
    }
}

/// Integer square root by binary search.
pub fn isqrt64(n: u64) -> (r: u64)
    ensures
        r == spec_isqrt(n as int),
{
    let mut lo: u64 = 0;
    let mut hi: u64 = 0xFFFF_FFFF;
    assert((0xFFFF_FFFFu64 + 1) * (0xFFFF_FFFFu64 + 1) > u64::MAX) by (nonlinear_arith);
    while lo < hi
        invariant
            lo <= hi <= 0xFFFF_FFFF,
            lo * lo <= n,
            n < (hi + 1) * (hi + 1),
        decreases hi - lo,
    {
        let mid: u64 = lo + (hi - lo + 1) / 2;
        proof {
            assert(mid * mid <= 0xFFFF_FFFFu64 * 0xFFFF_FFFFu64) by (nonlinear_arith)
                requires
                    mid <= 0xFFFF_FFFFu64,
            ;
        }
        if mid * mid <= n {
            lo = mid;
        } else {
            hi = mid - 1;
        }
    }
    proof {
        lemma_isqrt_unique(n as int, lo as int);
    }
    lo
}

/// The magnitude of a truncating quotient is bounded by the dividend's.
pub proof fn lemma_tdiv_bound(a: int, b: int, m: int)
    requires
        b > 0,
        -m <= a <= m,
        0 <= m,
    ensures
        -m <= b * tdiv(a, b) <= m,
        -(m / b) <= tdiv(a, b) <= m / b,
{
    if a >= 0 {
        assert(0 <= a / b <= m / b && 0 <= b * (a / b) <= a) by (nonlinear_arith)
            requires
                b > 0,
                0 <= a <= m,
        ;
    } else {
        assert(0 <= (-a) / b <= m / b && 0 <= b * ((-a) / b) <= -a) by (nonlinear_arith)
            requires
                b > 0,
                0 < -a <= m,
        ;
        assert(b * tdiv(a, b) == -(b * ((-a) / b))) by (nonlinear_arith)
            requires
                a < 0,
                b > 0,
        ;
    }
}

/// Sum of the squares of a sequence of samples.
pub open spec fn sum_squares(s: Seq<i16>) -> int
    decreases s.len(),
{
    if s.len() == 0 {
        0
    } else {
        sum_squares(s.drop_last()) + (s.last() as int) * (s.last() as int)
    }
}

/// The sum of squares of 16-bit samples is non-negative and bounded.
pub proof fn lemma_sum_squares_bound(s: Seq<i16>)
    ensures
        0 <= sum_squares(s) <= s.len() * 0x4000_0000,
    decreases s.len(),
{
    if s.len() > 0 {
        lemma_sum_squares_bound(s.drop_last());
        let v = s.last() as int;
        assert(0 <= v * v <= 0x4000_0000) by (nonlinear_arith)
            requires
                -32768 <= v <= 32767,
        ;
    }
}

/// Dividing an exact multiple gives back the factor.
pub proof fn lemma_tdiv_exact(s: int, b: int)
    requires
        b > 0,
    ensures
        tdiv(s * b, b) == s,
{
    if s >= 0 {
        assert((s * b) / b == s) by (nonlinear_arith)
            requires
                b > 0,
                s >= 0,
        ;
    } else {
        assert(-(s * b) == (-s) * b) by (nonlinear_arith);
        assert(((-s) * b) / b == -s) by (nonlinear_arith)
            requires
                b > 0,
                -s >= 0,
        ;
    }
}

} // verus!
