//! Fixed-point scalar arithmetic: scale constant, truncating division,
//! clamping, and an integer square root.

use vstd::prelude::*;

verus! {

/// The fixed-point scale: the stored integer `v` stands for the real
/// number `v / FX_ONE`. The value 65535 = 255 * 257 makes the 8-bit
/// channel quantization of the encoders exact.
pub const FX_ONE: i64 = 65535;

/// Power-of-two range bounds used in the overflow preconditions of the
/// vector operations.
pub const B29: i64 = 0x2000_0000;

pub const B30: i64 = 0x4000_0000;

pub const B31: i64 = 0x8000_0000;

pub const B60: i64 = 0x1000_0000_0000_0000;

/// Bound on the coordinates of scene geometry (sphere centres and
/// radii): about 256 world units at the fixed-point scale.
pub const COORD_MAX: i64 = 0x100_0000;

/// Bound on ray origins: camera eyes and bounce points stay within
/// about 1024 world units.
pub const ORIGIN_MAX: i64 = 0x400_0000;

/// Bound on ray direction components; unit directions stay well inside.
pub const DIR_MAX: i64 = 0x2_0000;

/// The self-intersection guard: the smallest accepted ray parameter,
/// the fixed-point value nearest 1e-3 from above.
pub const EPS_T: i64 = 66;

/// The largest accepted ray parameter (about 4096 world units for a
/// unit direction). It keeps every accepted hit within fixed-point
/// range; for unit directions it exceeds any distance between
/// well-formed geometry, so only rays with far sub-unit directions can
/// reach it.
pub const T_CAP: i64 = 0x1000_0000;

/// One more than the largest `u64`, the initial upper bracket of the
/// integer square root.
pub const U64_CEIL: u128 = 0x1_0000_0000_0000_0000;

/// Truncating (round toward zero) division, the rounding used throughout
/// the pipeline. Defined for positive divisors.
pub open spec fn tdiv(n: int, d: int) -> int
    recommends
        d >= 1,
{
    if n >= 0 {
        n / d
    } else {
        -((-n) / d)
    }
}

/// Clamp a fixed-point scalar into the radiance range `[0, 1]`.
pub open spec fn clamp_fx_s(c: int) -> int {
    if c < 0 {
        0
    } else if c > FX_ONE {
        FX_ONE as int
    } else {
        c
    }
}

/// Whether `r` is the floor of the real square root of `n`.
pub open spec fn is_sqrt_floor(n: int, r: int) -> bool {
    &&& 0 <= r
    &&& r * r <= n
    &&& n < (r + 1) * (r + 1)
}

/// The floor of the real square root of `n` (meaningful for `n >= 0`).
pub open spec fn sqrt_floor(n: int) -> int {
    choose|r: int| is_sqrt_floor(n, r)
}

proof fn lemma_sqrt_floor_unique(n: int, a: int, b: int)
    by (nonlinear_arith)
    requires
        is_sqrt_floor(n, a),
        is_sqrt_floor(n, b),
    ensures
        a == b,
{
}

/// The product of two values bounded in magnitude is bounded by the
/// product of the bounds.
pub proof fn lemma_abs_mul_le(a: int, b: int, m: int, n: int)
    by (nonlinear_arith)
    requires
        -m <= a <= m,
        -n <= b <= n,
        m >= 0,
        n >= 0,
    ensures
        -(m * n) <= a * b <= m * n,
{
}

/// Truncating division never grows the magnitude.
pub proof fn lemma_tdiv_abs_le(n: int, d: int, m: int)
    by (nonlinear_arith)
    requires
        d >= 1,
        0 <= m,
        -m <= n <= m,
    ensures
        -m <= tdiv(n, d) <= m,
{
}

/// Truncating division of a 64-bit value by a positive divisor.
pub fn tdiv64(n: i64, d: i64) -> (q: i64)
    requires
        d >= 1,
        n > i64::MIN,
    ensures
        q == tdiv(n as int, d as int),
{
    if n >= 0 {
        ((n as u64) / (d as u64)) as i64
    } else {
        let m: u64 = (-n) as u64;
        -((m / (d as u64)) as i64)
    }
}

/// Truncating division of a 128-bit value by a positive divisor.
pub fn tdiv128(n: i128, d: i128) -> (q: i128)
    requires
        d >= 1,
        n > i128::MIN,
    ensures
        q == tdiv(n as int, d as int),
{
    if n >= 0 {
        ((n as u128) / (d as u128)) as i128
    } else {
        let m: u128 = (-n) as u128;
        -((m / (d as u128)) as i128)
    }
}

/// Truncating division leaves a remainder smaller than the divisor,
/// on the same side of zero as the dividend.
pub proof fn lemma_tdiv_rem(n: int, d: int)
    by (nonlinear_arith)
    requires
        d >= 1,
    ensures
        0 <= n - tdiv(n, d) * d <= d - 1 || 0 >= n - tdiv(n, d) * d >= -(d - 1),
        n >= 0 ==> 0 <= n - tdiv(n, d) * d <= d - 1,
        n < 0 ==> 0 >= n - tdiv(n, d) * d >= -(d - 1),
{
}

/// Clamp a fixed-point radiance channel into `[0, 1]`.
pub fn clamp_fx(c: i64) -> (r: i64)
    ensures
        r == clamp_fx_s(c as int),
        0 <= r <= FX_ONE,
{
    if c < 0 {
        0
    } else if c > FX_ONE {
        FX_ONE
    } else {
        c
    }
}

/// Integer square root: the largest `r` with `r * r <= n`.
pub fn isqrt(n: u128) -> (r: u64)
    ensures
        is_sqrt_floor(n as int, r as int),
        r == sqrt_floor(n as int),
{
    let mut lo: u128 = 0;
    let mut hi: u128 = U64_CEIL;
    proof {
        assert((U64_CEIL as int) * (U64_CEIL as int) > n as int) by (nonlinear_arith)
            requires
                n <= u128::MAX,
            {
            };
    }
    while lo + 1 < hi
        invariant
            lo < hi,
            hi <= U64_CEIL,
            (lo as int) * (lo as int) <= n as int,
            (hi as int) * (hi as int) > n as int,
        decreases hi - lo,
    {
        let mid: u128 = lo + (hi - lo) / 2;
        proof {
            assert(lo < mid < hi);
            assert((mid as int) * (mid as int) < u128::MAX) by (nonlinear_arith)
                requires
                    mid < U64_CEIL,
                {
                };
        }
        if mid * mid <= n {
            lo = mid;
        } else {
            hi = mid;
        }
    }
    proof {
        assert(is_sqrt_floor(n as int, lo as int));
        lemma_sqrt_floor_unique(n as int, lo as int, sqrt_floor(n as int));
    }
    lo as u64
}

} // verus!
