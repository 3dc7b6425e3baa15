//! The 3-component fixed-point vector and its algebra.

use vstd::prelude::*;
use crate::num::{FX_ONE, B29, B30, B31, B60, tdiv, tdiv64, sqrt_floor, is_sqrt_floor, lemma_abs_mul_le, lemma_tdiv_rem};

verus! {

/// A 3-vector whose components are fixed-point scalars at scale
/// `FX_ONE`; it serves both for geometry and for radiance triples,
/// where `x`, `y`, `z` are read as `r`, `g`, `b`.
#[derive(Clone, Copy, PartialEq, Eq, Structural, Debug)]
pub struct Vec3 {
    pub x: i64,
    pub y: i64,
    pub z: i64,
}

/// All components within `[-b, b]`.
pub open spec fn in_range(v: Vec3, b: int) -> bool {
    &&& -b <= v.x <= b
    &&& -b <= v.y <= b
    &&& -b <= v.z <= b
}

/// The exact dot product of the stored integers (scale `FX_ONE^2`).
pub open spec fn dot_s(a: Vec3, b: Vec3) -> int {
    a.x * b.x + a.y * b.y + a.z * b.z
}

/// Numerator of the `x` component of the cross product (scale `FX_ONE^2`).
pub open spec fn cross_x_num(a: Vec3, b: Vec3) -> int {
    a.y * b.z - a.z * b.y
}

/// Numerator of the `y` component of the cross product (scale `FX_ONE^2`).
pub open spec fn cross_y_num(a: Vec3, b: Vec3) -> int {
    a.z * b.x - a.x * b.z
}

/// Numerator of the `z` component of the cross product (scale `FX_ONE^2`).
pub open spec fn cross_z_num(a: Vec3, b: Vec3) -> int {
    a.x * b.y - a.y * b.x
}

/// The rounded cross product, as stored by `cross`.
pub open spec fn cross_s(a: Vec3, b: Vec3) -> Vec3 {
    Vec3 {
        x: tdiv(cross_x_num(a, b), FX_ONE as int) as i64,
        y: tdiv(cross_y_num(a, b), FX_ONE as int) as i64,
        z: tdiv(cross_z_num(a, b), FX_ONE as int) as i64,
    }
}

/// The rounded broadcast product, as stored by `scale`.
pub open spec fn scale_s(v: Vec3, s: int) -> Vec3 {
    Vec3 {
        x: tdiv(v.x * s, FX_ONE as int) as i64,
        y: tdiv(v.y * s, FX_ONE as int) as i64,
        z: tdiv(v.z * s, FX_ONE as int) as i64,
    }
}

/// The rounded componentwise product, as stored by `mul`.
pub open spec fn mul_s(a: Vec3, b: Vec3) -> Vec3 {
    Vec3 {
        x: tdiv(a.x * b.x, FX_ONE as int) as i64,
        y: tdiv(a.y * b.y, FX_ONE as int) as i64,
        z: tdiv(a.z * b.z, FX_ONE as int) as i64,
    }
}

/// The componentwise negation.
pub open spec fn neg_s(v: Vec3) -> Vec3 {
    Vec3 { x: (-v.x) as i64, y: (-v.y) as i64, z: (-v.z) as i64 }
}

/// The componentwise sum, as a triple of unbounded integers.
pub open spec fn add_s(a: Vec3, b: Vec3) -> (int, int, int) {
    (a.x + b.x, a.y + b.y, a.z + b.z)
}

impl Vec3 {
    pub fn new(x: i64, y: i64, z: i64) -> (v: Vec3)
        ensures
            v == (Vec3 { x, y, z }),
    {
        Vec3 { x, y, z }
    }

    pub fn zeros() -> (v: Vec3)
        ensures
            v == (Vec3 { x: 0i64, y: 0i64, z: 0i64 }),
    {
        Vec3 { x: 0, y: 0, z: 0 }
    }

    /// The all-ones radiance triple: each channel is the fixed-point 1.
    pub fn ones() -> (v: Vec3)
        ensures
            v == (Vec3 { x: FX_ONE, y: FX_ONE, z: FX_ONE }),
    {
        Vec3 { x: FX_ONE, y: FX_ONE, z: FX_ONE }
    }

    pub fn x(self) -> (r: i64)
        ensures
            r == self.x,
    {
        self.x
    }

    pub fn y(self) -> (r: i64)
        ensures
            r == self.y,
    {
        self.y
    }

    pub fn z(self) -> (r: i64)
        ensures
            r == self.z,
    {
        self.z
    }

    /// The red channel of a radiance triple.
    pub fn r(self) -> (r: i64)
        ensures
            r == self.x,
    {
        self.x
    }

    /// The green channel of a radiance triple.
    pub fn g(self) -> (r: i64)
        ensures
            r == self.y,
    {
        self.y
    }

    /// The blue channel of a radiance triple.
    pub fn b(self) -> (r: i64)
        ensures
            r == self.z,
    {
        self.z
    }

    pub fn add(self, other: Vec3) -> (v: Vec3)
        requires
            in_range(self, B60 as int),
            in_range(other, B60 as int),
        ensures
            (v.x as int, v.y as int, v.z as int) == add_s(self, other),
    {
        Vec3 { x: self.x + other.x, y: self.y + other.y, z: self.z + other.z }
    }

    pub fn sub(self, other: Vec3) -> (v: Vec3)
        requires
            in_range(self, B60 as int),
            in_range(other, B60 as int),
        ensures
            v.x == self.x - other.x,
            v.y == self.y - other.y,
            v.z == self.z - other.z,
    {
        Vec3 { x: self.x - other.x, y: self.y - other.y, z: self.z - other.z }
    }

    pub fn neg(self) -> (v: Vec3)
        requires
            in_range(self, B60 as int),
        ensures
            v == neg_s(self),
            v.x == -self.x,
            v.y == -self.y,
            v.z == -self.z,
    {
        Vec3 { x: -self.x, y: -self.y, z: -self.z }
    }

    /// Componentwise fixed-point product (used for radiance attenuation).
    pub fn mul(self, other: Vec3) -> (v: Vec3)
        requires
            in_range(self, B30 as int),
            in_range(other, B30 as int),
        ensures
            v == mul_s(self, other),
            v.x == tdiv(self.x * other.x, FX_ONE as int),
            v.y == tdiv(self.y * other.y, FX_ONE as int),
            v.z == tdiv(self.z * other.z, FX_ONE as int),
    {
        proof {
            lemma_abs_mul_le(self.x as int, other.x as int, B30 as int, B30 as int);
            lemma_abs_mul_le(self.y as int, other.y as int, B30 as int, B30 as int);
            lemma_abs_mul_le(self.z as int, other.z as int, B30 as int, B30 as int);
        }
        Vec3 {
            x: tdiv64(self.x * other.x, FX_ONE),
            y: tdiv64(self.y * other.y, FX_ONE),
            z: tdiv64(self.z * other.z, FX_ONE),
        }
    }

    /// Broadcast fixed-point product with the scalar `s`.
    pub fn scale(self, s: i64) -> (v: Vec3)
        requires
            in_range(self, B30 as int),
            -B30 <= s <= B30,
        ensures
            v == scale_s(self, s as int),
            v.x == tdiv(self.x * s, FX_ONE as int),
            v.y == tdiv(self.y * s, FX_ONE as int),
            v.z == tdiv(self.z * s, FX_ONE as int),
    {
        proof {
            lemma_abs_mul_le(self.x as int, s as int, B30 as int, B30 as int);
            lemma_abs_mul_le(self.y as int, s as int, B30 as int, B30 as int);
            lemma_abs_mul_le(self.z as int, s as int, B30 as int, B30 as int);
        }
        Vec3 {
            x: tdiv64(self.x * s, FX_ONE),
            y: tdiv64(self.y * s, FX_ONE),
            z: tdiv64(self.z * s, FX_ONE),
        }
    }

    /// Componentwise truncating division by a positive integer count
    /// (used for halving spans and for averaging samples).
    pub fn div_int(self, k: i64) -> (v: Vec3)
        requires
            k >= 1,
            in_range(self, B60 as int),
        ensures
            v.x == tdiv(self.x as int, k as int),
            v.y == tdiv(self.y as int, k as int),
            v.z == tdiv(self.z as int, k as int),
    {
        Vec3 { x: tdiv64(self.x, k), y: tdiv64(self.y, k), z: tdiv64(self.z, k) }
    }

    /// Componentwise fixed-point division.
    pub fn div(self, other: Vec3) -> (v: Vec3)
        requires
            in_range(self, B30 as int),
            in_range(other, B30 as int),
            other.x != 0,
            other.y != 0,
            other.z != 0,
        ensures
            v.x == fxdiv(self.x as int, other.x as int),
            v.y == fxdiv(self.y as int, other.y as int),
            v.z == fxdiv(self.z as int, other.z as int),
    {
        Vec3 {
            x: div_fx64(self.x, other.x),
            y: div_fx64(self.y, other.y),
            z: div_fx64(self.z, other.z),
        }
    }

    /// Broadcast fixed-point division by the scalar `s`.
    pub fn div_scalar(self, s: i64) -> (v: Vec3)
        requires
            in_range(self, B30 as int),
            -B30 <= s <= B30,
            s != 0,
        ensures
            v.x == fxdiv(self.x as int, s as int),
            v.y == fxdiv(self.y as int, s as int),
            v.z == fxdiv(self.z as int, s as int),
    {
        Vec3 { x: div_fx64(self.x, s), y: div_fx64(self.y, s), z: div_fx64(self.z, s) }
    }

    /// The dot product of the stored integers, at scale `FX_ONE^2`.
    pub fn dot(self, other: Vec3) -> (d: i64)
        requires
            in_range(self, B29 as int),
            in_range(other, B29 as int),
        ensures
            d == dot_s(self, other),
    {
        proof {
            lemma_abs_mul_le(self.x as int, other.x as int, B29 as int, B29 as int);
            lemma_abs_mul_le(self.y as int, other.y as int, B29 as int, B29 as int);
            lemma_abs_mul_le(self.z as int, other.z as int, B29 as int, B29 as int);
        }
        self.x * other.x + self.y * other.y + self.z * other.z
    }

    /// Right-handed cross product, rescaled back to `FX_ONE`.
    pub fn cross(self, other: Vec3) -> (v: Vec3)
        requires
            in_range(self, B30 as int),
            in_range(other, B30 as int),
        ensures
            v == cross_s(self, other),
            v.x == tdiv(cross_x_num(self, other), FX_ONE as int),
            v.y == tdiv(cross_y_num(self, other), FX_ONE as int),
            v.z == tdiv(cross_z_num(self, other), FX_ONE as int),
    {
        proof {
            lemma_abs_mul_le(self.y as int, other.z as int, B30 as int, B30 as int);
            lemma_abs_mul_le(self.z as int, other.y as int, B30 as int, B30 as int);
            lemma_abs_mul_le(self.z as int, other.x as int, B30 as int, B30 as int);
            lemma_abs_mul_le(self.x as int, other.z as int, B30 as int, B30 as int);
            lemma_abs_mul_le(self.x as int, other.y as int, B30 as int, B30 as int);
            lemma_abs_mul_le(self.y as int, other.x as int, B30 as int, B30 as int);
        }
        Vec3 {
            x: tdiv64(self.y * other.z - self.z * other.y, FX_ONE),
            y: tdiv64(self.z * other.x - self.x * other.z, FX_ONE),
            z: tdiv64(self.x * other.y - self.y * other.x, FX_ONE),
        }
    }

    /// The Euclidean length of the stored integer vector: since the
    /// components carry scale `FX_ONE`, so does the returned length.
    pub fn length(self) -> (len: i64)
        requires
            in_range(self, B29 as int),
        ensures
            len == sqrt_floor(dot_s(self, self)),
            is_sqrt_floor(dot_s(self, self), len as int),
            0 <= len <= B31,
    {
        proof {
            assert(0 <= dot_s(self, self) < B60) by (nonlinear_arith)
                requires
                    in_range(self, B29 as int),
                {
                };
        }
        let d: i64 = self.dot(self);
        let r: u64 = crate::num::isqrt(d as u128);
        proof {
            assert(r <= B31) by (nonlinear_arith)
                requires
                    is_sqrt_floor(d as int, r as int),
                    0 <= d < B60,
                    r >= 0,
                {
                };
        }
        r as i64
    }

    /// The fixed-point reciprocal of the length.
    pub fn length_reciprocal(self) -> (r: i64)
        requires
            in_range(self, B29 as int),
            dot_s(self, self) >= 1,
        ensures
            r == tdiv(FX_ONE * FX_ONE, sqrt_floor(dot_s(self, self))),
    {
        let len: i64 = self.length();
        proof {
            lemma_sqrt_pos(dot_s(self, self), len as int);
        }
        tdiv64(FX_ONE * FX_ONE, len)
    }

    /// Divide each component by the Euclidean length, giving a unit
    /// vector up to fixed-point rounding. Undefined on the zero vector;
    /// the precondition asks for at least one unit of length, below
    /// which fixed-point rounding cannot deliver a near-unit result.
    pub fn normalize(self) -> (v: Vec3)
        requires
            in_range(self, B29 as int),
            dot_s(self, self) >= FX_ONE * FX_ONE,
        ensures
            v == normalize_s(self),
            in_range(v, FX_ONE as int),
            FX_ONE * FX_ONE - 6 * FX_ONE <= dot_s(v, v) <= FX_ONE * FX_ONE + 10 * FX_ONE,
    {
        proof {
            lemma_normalize_unit(self);
        }
        let len: i64 = self.length();
        proof {
            lemma_sqrt_pos(dot_s(self, self), len as int);
            lemma_component_le_length(self, len as int);
        }
        let v = Vec3 {
            x: tdiv64(self.x * FX_ONE, len),
            y: tdiv64(self.y * FX_ONE, len),
            z: tdiv64(self.z * FX_ONE, len),
        };
        proof {
            lemma_normalize_in_range(self.x as int, len as int);
            lemma_normalize_in_range(self.y as int, len as int);
            lemma_normalize_in_range(self.z as int, len as int);
        }
        v
    }
}

/// Fixed-point division: the quotient of the two represented reals,
/// truncated at the fixed-point scale. Defined for nonzero divisors.
pub open spec fn fxdiv(a: int, b: int) -> int
    recommends
        b != 0,
{
    if b > 0 {
        tdiv(a * FX_ONE, b)
    } else {
        -tdiv(a * FX_ONE, -b)
    }
}

/// One fixed-point scalar division.
fn div_fx64(a: i64, b: i64) -> (q: i64)
    requires
        -B30 <= a <= B30,
        -B30 <= b <= B30,
        b != 0,
    ensures
        q == fxdiv(a as int, b as int),
{
    if b > 0 {
        tdiv64(a * FX_ONE, b)
    } else {
        -tdiv64(a * FX_ONE, -b)
    }
}

/// The exact value of `normalize`: each component scaled by `FX_ONE`
/// and divided, truncating, by the floor of the length.
pub open spec fn normalize_s(u: Vec3) -> Vec3 {
    let len = sqrt_floor(dot_s(u, u));
    Vec3 {
        x: tdiv(u.x * FX_ONE, len) as i64,
        y: tdiv(u.y * FX_ONE, len) as i64,
        z: tdiv(u.z * FX_ONE, len) as i64,
    }
}

impl Default for Vec3 {
    /// The zero vector.
    fn default() -> (v: Vec3)
        ensures
            v == (Vec3 { x: 0i64, y: 0i64, z: 0i64 }),
    {
        Vec3 { x: 0, y: 0, z: 0 }
    }
}

/// A floor square root of a positive number is positive.
proof fn lemma_sqrt_pos(n: int, r: int)
    requires
        is_sqrt_floor(n, r),
        n >= 1,
    ensures
        r >= 1,
{
    if r == 0 {
        assert(n < 1);
    }
}

/// No component exceeds the floor of the Euclidean length.
proof fn lemma_component_le_length(u: Vec3, len: int)
    by (nonlinear_arith)
    requires
        is_sqrt_floor(dot_s(u, u), len),
    ensures
        -len <= u.x <= len,
        -len <= u.y <= len,
        -len <= u.z <= len,
{
}

/// Scaling a component by `FX_ONE` and dividing by a length at least as
/// large keeps it within the fixed-point unit range.
proof fn lemma_normalize_in_range(c: int, len: int)
    by (nonlinear_arith)
    requires
        len >= 1,
        -len <= c <= len,
    ensures
        -(FX_ONE as int) <= tdiv(c * FX_ONE, len) <= FX_ONE as int,
{
}

/// A floor square root exists for every nonnegative number, so the
/// chosen `sqrt_floor` satisfies its defining property.
pub proof fn lemma_sqrt_floor_exists(n: int)
    requires
        n >= 0,
    ensures
        is_sqrt_floor(n, sqrt_floor(n)),
    decreases n,
{
    if n == 0 {
        assert(is_sqrt_floor(0, 0));
    } else {
        lemma_sqrt_floor_exists(n - 1);
        let r = sqrt_floor(n - 1);
        if (r + 1) * (r + 1) <= n {
            assert(is_sqrt_floor(n, r + 1)) by (nonlinear_arith)
                requires
                    is_sqrt_floor(n - 1, r),
                    (r + 1) * (r + 1) <= n,
                {
                };
        } else {
            assert(is_sqrt_floor(n, r));
        }
    }
}

/// Ring identity behind one rounded division: with remainder
/// `rho == a - r * l`, the square of `r * l` expands over `a` and
/// `rho`.
proof fn lemma_split_square(a: int, r: int, l: int, rho: int)
    by (nonlinear_arith)
    requires
        rho == a - r * l,
    ensures
        (r * r) * (l * l) == a * a - 2 * (a * rho) + rho * rho,
{
}

/// Squares of products regroup.
proof fn lemma_sq_mul(v: int, s: int)
    by (nonlinear_arith)
    ensures
        (v * s) * (v * s) == (v * v) * (s * s),
{
}

/// Products regroup around a scalar factor.
proof fn lemma_assoc3(v: int, s: int, rho: int)
    by (nonlinear_arith)
    ensures
        (v * s) * rho == s * (v * rho),
{
}

/// Multiplication distributes over a three-term sum.
proof fn lemma_dist3(a: int, b: int, c: int, m: int)
    by (nonlinear_arith)
    ensures
        (a + b + c) * m == a * m + b * m + c * m,
{
}

/// Multiplying both sides of an inequality by a nonnegative factor.
proof fn lemma_mul_mono(a: int, b: int, m: int)
    by (nonlinear_arith)
    requires
        a <= b,
        m >= 0,
    ensures
        a * m <= b * m,
{
}

/// A factor of at least one cancels from an inequality of products.
proof fn lemma_mul_cancel(a: int, b: int, m: int)
    by (nonlinear_arith)
    requires
        a * m <= b * m,
        m >= 1,
    ensures
        a <= b,
{
}

/// The unit-length law of `normalize`, in its fixed-point form: for a
/// vector at least one unit long, the squared length of the stored
/// result is within a few rounding steps of the exact unit square.
pub proof fn lemma_normalize_unit(v: Vec3)
    requires
        in_range(v, B29 as int),
        dot_s(v, v) >= FX_ONE * FX_ONE,
    ensures
        FX_ONE * FX_ONE - 6 * FX_ONE <= dot_s(normalize_s(v), normalize_s(v)) <= FX_ONE * FX_ONE
            + 10 * FX_ONE,
{
    let s = FX_ONE as int;
    let dot = dot_s(v, v);
    let len = sqrt_floor(dot);
    lemma_sqrt_floor_exists(dot);
    lemma_component_le_length(v, len);
    assert(len >= s) by (nonlinear_arith)
        requires
            is_sqrt_floor(dot, len),
            dot >= s * s,
            s >= 1,
        {
        };
    let n = normalize_s(v);
    let rx = tdiv(v.x * s, len);
    let ry = tdiv(v.y * s, len);
    let rz = tdiv(v.z * s, len);
    let px = v.x * s - rx * len;
    let py = v.y * s - ry * len;
    let pz = v.z * s - rz * len;
    lemma_tdiv_rem(v.x * s, len);
    lemma_tdiv_rem(v.y * s, len);
    lemma_tdiv_rem(v.z * s, len);
    assert(-len < px < len && -len < py < len && -len < pz < len);
    assert(n.x == rx && n.y == ry && n.z == rz);
    lemma_split_square(v.x * s, rx, len, px);
    lemma_split_square(v.y * s, ry, len, py);
    lemma_split_square(v.z * s, rz, len, pz);
    lemma_sq_mul(v.x as int, s);
    lemma_sq_mul(v.y as int, s);
    lemma_sq_mul(v.z as int, s);
    lemma_assoc3(v.x as int, s, px);
    lemma_assoc3(v.y as int, s, py);
    lemma_assoc3(v.z as int, s, pz);
    let p = v.x * px + v.y * py + v.z * pz;
    let q = px * px + py * py + pz * pz;
    assert((rx * rx) * (len * len) == (v.x * v.x) * (s * s) - 2 * (s * (v.x * px)) + px * px);
    lemma_dist3(rx * rx, ry * ry, rz * rz, len * len);
    lemma_dist3(v.x * v.x, v.y * v.y, v.z * v.z, s * s);
    lemma_dist3(v.x * px, v.y * py, v.z * pz, s);
    assert(dot_s(n, n) * (len * len) == dot * (s * s) - 2 * (p * s) + q);
    lemma_abs_mul_le(v.x as int, px, len, len);
    lemma_abs_mul_le(v.y as int, py, len, len);
    lemma_abs_mul_le(v.z as int, pz, len, len);
    assert(-3 * (len * len) <= p <= 3 * (len * len));
    lemma_abs_mul_le(px, px, len, len);
    lemma_abs_mul_le(py, py, len, len);
    lemma_abs_mul_le(pz, pz, len, len);
    assert(0 <= q) by (nonlinear_arith)
        requires
            q == px * px + py * py + pz * pz,
        {
        };
    assert(q <= 3 * (len * len));
    // Bound p * s both ways, and the numerator against dot's bracket.
    lemma_mul_mono(-3 * (len * len), p, s);
    lemma_mul_mono(p, 3 * (len * len), s);
    assert(-3 * ((len * len) * s) <= p * s <= 3 * ((len * len) * s)) by (nonlinear_arith)
        requires
            (-3 * (len * len)) * s <= p * s <= (3 * (len * len)) * s,
        {
        };
    // dot's bracket scaled by s * s.
    assert(dot <= (len * len) + 2 * len + 1) by (nonlinear_arith)
        requires
            is_sqrt_floor(dot, len),
        {
        };
    assert(dot >= len * len);
    lemma_mul_mono(dot, (len * len) + 2 * len + 1, s * s);
    lemma_mul_mono(len * len, dot, s * s);
    // Collapse the slack into multiples of (len * len) * s, using
    // len >= s >= 3.
    assert(dot_s(n, n) * (len * len) <= (s * s + 10 * s) * (len * len)) by (nonlinear_arith)
        requires
            dot_s(n, n) * (len * len) == dot * (s * s) - 2 * (p * s) + q,
            dot * (s * s) <= ((len * len) + 2 * len + 1) * (s * s),
            -3 * ((len * len) * s) <= p * s <= 3 * ((len * len) * s),
            0 <= q <= 3 * (len * len),
            len >= s,
            s >= 3,
        {
        };
    assert(dot_s(n, n) * (len * len) >= (s * s - 6 * s) * (len * len)) by (nonlinear_arith)
        requires
            dot_s(n, n) * (len * len) == dot * (s * s) - 2 * (p * s) + q,
            dot * (s * s) >= (len * len) * (s * s),
            -3 * ((len * len) * s) <= p * s <= 3 * ((len * len) * s),
            0 <= q,
            len >= s,
            s >= 3,
        {
        };
    lemma_mul_cancel(dot_s(n, n), s * s + 10 * s, len * len);
    lemma_mul_cancel(s * s - 6 * s, dot_s(n, n), len * len);
}

/// Componentwise addition is commutative.
pub proof fn lemma_add_comm(a: Vec3, b: Vec3)
    ensures
        add_s(a, b) == add_s(b, a),
{
}

/// Componentwise addition is associative: summing the exact component
/// triples in either grouping gives the same integers.
pub proof fn lemma_add_assoc(a: Vec3, b: Vec3, c: Vec3)
    ensures
        (a.x + b.x) + c.x == a.x + (b.x + c.x),
        (a.y + b.y) + c.y == a.y + (b.y + c.y),
        (a.z + b.z) + c.z == a.z + (b.z + c.z),
{
}

/// Scalar multiplication distributes over addition at the exact
/// (pre-rounding) numerator level.
pub proof fn lemma_scale_distributes(a: Vec3, b: Vec3, s: int)
    by (nonlinear_arith)
    ensures
        s * (a.x + b.x) == s * a.x + s * b.x,
        s * (a.y + b.y) == s * a.y + s * b.y,
        s * (a.z + b.z) == s * a.z + s * b.z,
{
}

/// The dot product is symmetric.
pub proof fn lemma_dot_comm(a: Vec3, b: Vec3)
    by (nonlinear_arith)
    ensures
        dot_s(a, b) == dot_s(b, a),
{
}

/// The exact cross-product numerators are orthogonal to the first
/// factor.
pub proof fn lemma_cross_orthogonal_left(a: Vec3, b: Vec3)
    ensures
        cross_x_num(a, b) * a.x + cross_y_num(a, b) * a.y + cross_z_num(a, b) * a.z == 0,
{
    assert(cross_x_num(a, b) * a.x == a.x * a.y * b.z - a.x * a.z * b.y) by (nonlinear_arith);
    assert(cross_y_num(a, b) * a.y == a.y * a.z * b.x - a.x * a.y * b.z) by (nonlinear_arith);
    assert(cross_z_num(a, b) * a.z == a.x * a.z * b.y - a.y * a.z * b.x) by (nonlinear_arith);
}

/// The cross product is antisymmetric at the numerator level.
pub proof fn lemma_cross_antisym(a: Vec3, b: Vec3)
    by (nonlinear_arith)
    ensures
        cross_x_num(a, b) == -cross_x_num(b, a),
        cross_y_num(a, b) == -cross_y_num(b, a),
        cross_z_num(a, b) == -cross_z_num(b, a),
{
}

/// The exact cross-product numerators are orthogonal to the second
/// factor.
pub proof fn lemma_cross_orthogonal_right(a: Vec3, b: Vec3)
    ensures
        cross_x_num(a, b) * b.x + cross_y_num(a, b) * b.y + cross_z_num(a, b) * b.z == 0,
{
    lemma_cross_orthogonal_left(b, a);
    lemma_cross_antisym(a, b);
    assert(cross_x_num(a, b) * b.x == -(cross_x_num(b, a) * b.x)) by (nonlinear_arith)
        requires
            cross_x_num(a, b) == -cross_x_num(b, a),
        {
        };
    assert(cross_y_num(a, b) * b.y == -(cross_y_num(b, a) * b.y)) by (nonlinear_arith)
        requires
            cross_y_num(a, b) == -cross_y_num(b, a),
        {
        };
    assert(cross_z_num(a, b) * b.z == -(cross_z_num(b, a) * b.z)) by (nonlinear_arith)
        requires
            cross_z_num(a, b) == -cross_z_num(b, a),
        {
        };
}

} // verus!
