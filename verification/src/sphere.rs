//! Spheres and the ray/sphere intersection test with robust root
//! selection.

use vstd::prelude::*;
use crate::num::{
    FX_ONE, COORD_MAX, ORIGIN_MAX, DIR_MAX, EPS_T, T_CAP,
    tdiv, tdiv64, tdiv128, sqrt_floor, is_sqrt_floor, isqrt, lemma_abs_mul_le,
};
use crate::vec3::{Vec3, in_range, dot_s};
use crate::ray::{Ray, ray_wf, at_s};

verus! {

/// A sphere: centre, albedo (componentwise in `[0, 1]`), and positive
/// radius.
#[derive(Clone, Copy, PartialEq, Eq, Structural, Debug)]
pub struct Sphere {
    pub pos: Vec3,
    pub colour: Vec3,
    pub radius: i64,
}

/// The datum describing a ray/surface intersection: the ray parameter,
/// the world-space hit position, the outward unit normal, and a copy of
/// the sphere that was hit (for albedo lookup).
#[derive(Clone, Copy, PartialEq, Eq, Structural, Debug)]
pub struct HitRecord {
    pub t: i64,
    pub pos: Vec3,
    pub normal: Vec3,
    pub obj: Sphere,
}

/// Spheres the pipeline accepts: geometry within the world range, a
/// positive radius, and albedo channels within `[0, 1]`.
pub open spec fn sphere_wf(s: Sphere) -> bool {
    &&& in_range(s.pos, COORD_MAX as int)
    &&& 1 <= s.radius <= COORD_MAX
    &&& 0 <= s.colour.x <= FX_ONE
    &&& 0 <= s.colour.y <= FX_ONE
    &&& 0 <= s.colour.z <= FX_ONE
}

/// The origin of the ray relative to the sphere's centre.
pub open spec fn oc_s(s: Sphere, r: Ray) -> Vec3 {
    Vec3 {
        x: (r.pos.x - s.pos.x) as i64,
        y: (r.pos.y - s.pos.y) as i64,
        z: (r.pos.z - s.pos.z) as i64,
    }
}

/// Quadratic coefficient `a = d . d` of `|o + t d - c|^2 = r^2`.
pub open spec fn quad_a(s: Sphere, r: Ray) -> int {
    dot_s(r.dir, r.dir)
}

/// Quadratic coefficient `b = 2 (oc . d)`.
pub open spec fn quad_b(s: Sphere, r: Ray) -> int {
    2 * dot_s(oc_s(s, r), r.dir)
}

/// Quadratic coefficient `c = oc . oc - radius^2`.
pub open spec fn quad_c(s: Sphere, r: Ray) -> int {
    dot_s(oc_s(s, r), oc_s(s, r)) - s.radius * s.radius
}

/// The discriminant `b^2 - 4 a c`.
pub open spec fn discriminant(s: Sphere, r: Ray) -> int {
    quad_b(s, r) * quad_b(s, r) - 4 * quad_a(s, r) * quad_c(s, r)
}

/// Whether a candidate root is accepted: at least the self-intersection
/// guard `EPS_T`, and within the fixed-point range guards that keep the
/// hit point representable.
pub open spec fn root_ok(s: Sphere, r: Ray, t: int) -> bool {
    &&& EPS_T <= t <= T_CAP
    &&& in_range(at_s(r, t), ORIGIN_MAX as int)
}

/// The smaller root of the quadratic, rescaled to a fixed-point ray
/// parameter.
pub open spec fn root_near(s: Sphere, r: Ray) -> int {
    tdiv(
        (-quad_b(s, r) - sqrt_floor(discriminant(s, r))) * FX_ONE,
        2 * quad_a(s, r),
    )
}

/// The larger root of the quadratic.
pub open spec fn root_far(s: Sphere, r: Ray) -> int {
    tdiv(
        (-quad_b(s, r) + sqrt_floor(discriminant(s, r))) * FX_ONE,
        2 * quad_a(s, r),
    )
}

/// The accepted ray parameter, if any: no intersection when the
/// discriminant is not positive; otherwise the near root when it passes
/// the guards, else the far root when it passes, else nothing.
pub open spec fn hit_t_s(s: Sphere, r: Ray) -> Option<int> {
    if discriminant(s, r) <= 0 {
        None
    } else if root_ok(s, r, root_near(s, r)) {
        Some(root_near(s, r))
    } else if root_ok(s, r, root_far(s, r)) {
        Some(root_far(s, r))
    } else {
        None
    }
}

/// The outward normal at `p`: the offset from the centre divided by the
/// radius, at the fixed-point scale.
pub open spec fn normal_s(s: Sphere, p: Vec3) -> Vec3 {
    Vec3 {
        x: tdiv((p.x - s.pos.x) * FX_ONE, s.radius as int) as i64,
        y: tdiv((p.y - s.pos.y) * FX_ONE, s.radius as int) as i64,
        z: tdiv((p.z - s.pos.z) * FX_ONE, s.radius as int) as i64,
    }
}

/// The full intersection result of a sphere and a ray.
pub open spec fn sphere_hit_s(s: Sphere, r: Ray) -> Option<HitRecord> {
    match hit_t_s(s, r) {
        None => None,
        Some(t) => {
            let p = at_s(r, t);
            Some(HitRecord { t: t as i64, pos: p, normal: normal_s(s, p), obj: s })
        },
    }
}

/// A dot product of a vector with itself is a sum of squares: it is
/// nonnegative, and zero only for the zero vector.
pub proof fn lemma_dot_self(v: Vec3)
    by (nonlinear_arith)
    ensures
        dot_s(v, v) >= 0,
        dot_s(v, v) == 0 ==> v.x == 0 && v.y == 0 && v.z == 0,
{
}

/// A dot product of vectors bounded componentwise by `m` and `n` is
/// bounded by `3 m n`.
pub proof fn lemma_dot_bound(a: Vec3, b: Vec3, m: int, n: int)
    by (nonlinear_arith)
    requires
        in_range(a, m),
        in_range(b, n),
        m >= 0,
        n >= 0,
    ensures
        -3 * (m * n) <= dot_s(a, b) <= 3 * (m * n),
{
}

/// What every accepted hit record satisfies, read off the definition of
/// `sphere_hit_s`: the parameter clears the self-intersection guard and
/// the range cap, the position is within world range, and the record
/// carries the sphere it was built from.
pub proof fn lemma_sphere_hit_props(s: Sphere, r: Ray)
    ensures
        match sphere_hit_s(s, r) {
            Some(h) => {
                &&& EPS_T <= h.t <= T_CAP
                &&& h.pos == at_s(r, h.t as int)
                &&& in_range(h.pos, ORIGIN_MAX as int)
                &&& h.normal == normal_s(s, h.pos)
                &&& h.obj == s
                &&& hit_t_s(s, r) == Some(h.t as int)
            },
            None => hit_t_s(s, r) is None,
        },
{
}

impl Sphere {
    /// Intersect a ray with the sphere, returning the closest accepted
    /// intersection under the root-selection policy of `hit_t_s`.
    pub fn hit(self, ray: Ray) -> (res: Option<HitRecord>)
        requires
            sphere_wf(self),
            ray_wf(ray),
        ensures
            res == sphere_hit_s(self, ray),
    {
        let oc = ray.pos.sub(self.pos);
        proof {
            assert(oc == oc_s(self, ray));
            assert(in_range(oc, (ORIGIN_MAX + COORD_MAX) as int));
            lemma_dot_bound(ray.dir, ray.dir, DIR_MAX as int, DIR_MAX as int);
            lemma_dot_bound(oc, ray.dir, (ORIGIN_MAX + COORD_MAX) as int, DIR_MAX as int);
            lemma_dot_bound(oc, oc, (ORIGIN_MAX + COORD_MAX) as int, (ORIGIN_MAX + COORD_MAX) as int);
            lemma_abs_mul_le(self.radius as int, self.radius as int, COORD_MAX as int, COORD_MAX as int);
        }
        let a: i64 = ray.dir.dot(ray.dir);
        let b: i64 = 2 * oc.dot(ray.dir);
        let c: i64 = oc.dot(oc) - self.radius * self.radius;

        proof {
            lemma_abs_mul_le(b as int, b as int, 0x1_0000_0000_0000i64 as int, 0x1_0000_0000_0000i64 as int);
            lemma_abs_mul_le(a as int, c as int, 0x10_0000_0000i64 as int, 0x1000_0000_0000_0000i64 as int);
        }
        let ac: i128 = (a as i128) * (c as i128);
        let disc: i128 = (b as i128) * (b as i128) - 4 * ac;
        proof {
            assert(4 * (a as int * c as int) == 4 * quad_a(self, ray) * quad_c(self, ray))
                by (nonlinear_arith)
                requires
                    a == quad_a(self, ray),
                    c == quad_c(self, ray),
                {
                };
            assert(disc == discriminant(self, ray));
        }
        if disc <= 0 {
            return None;
        }

        proof {
            lemma_dot_self(ray.dir);
            if a == 0 {
                assert(quad_b(self, ray) == 0) by (nonlinear_arith)
                    requires
                        ray.dir.x == 0,
                        ray.dir.y == 0,
                        ray.dir.z == 0,
                    {
                    };
                assert((a as int) * (c as int) == 0) by (nonlinear_arith)
                    requires
                        a == 0,
                    {
                    };
                assert(disc == 0);
            }
        }
        let q: u64 = isqrt(disc as u128);
        proof {
            assert(q as int * q as int <= disc);
            assert((q as int) < 0x4_0000_0000_0000i64 as int) by (nonlinear_arith)
                requires
                    q as int * q as int <= disc,
                    disc < 0x8_0000_0000_0000_0000_0000_0000i128,
                    q >= 0,
                {
                };
        }
        let qa2: i128 = 2 * (a as i128);
        proof {
            lemma_abs_mul_le(
                -(b as int) - (q as int), FX_ONE as int,
                0x8_0000_0000_0000i64 as int, 0x1_0000i64 as int);
            lemma_abs_mul_le(
                -(b as int) + (q as int), FX_ONE as int,
                0x8_0000_0000_0000i64 as int, 0x1_0000i64 as int);
        }
        let num_near: i128 = (-(b as i128) - (q as i128)) * (FX_ONE as i128);
        let t_near: i128 = tdiv128(num_near, qa2);
        proof {
            assert(t_near == root_near(self, ray));
        }
        if EPS_T as i128 <= t_near && t_near <= T_CAP as i128 {
            let p = ray.at(t_near as i64);
            if in_range_exec(p, ORIGIN_MAX) {
                let n = normal_of(self, p);
                return Some(HitRecord { t: t_near as i64, pos: p, normal: n, obj: self });
            }
        }
        let num_far: i128 = (-(b as i128) + (q as i128)) * (FX_ONE as i128);
        let t_far: i128 = tdiv128(num_far, qa2);
        proof {
            assert(t_far == root_far(self, ray));
        }
        if EPS_T as i128 <= t_far && t_far <= T_CAP as i128 {
            let p = ray.at(t_far as i64);
            if in_range_exec(p, ORIGIN_MAX) {
                let n = normal_of(self, p);
                return Some(HitRecord { t: t_far as i64, pos: p, normal: n, obj: self });
            }
        }
        None
    }
}

/// Runtime check of the componentwise range predicate.
fn in_range_exec(v: Vec3, b: i64) -> (r: bool)
    requires
        b >= 0,
    ensures
        r == in_range(v, b as int),
{
    -b <= v.x && v.x <= b && -b <= v.y && v.y <= b && -b <= v.z && v.z <= b
}

/// The outward normal at a hit position within world range.
fn normal_of(s: Sphere, p: Vec3) -> (n: Vec3)
    requires
        sphere_wf(s),
        in_range(p, ORIGIN_MAX as int),
    ensures
        n == normal_s(s, p),
{
    Vec3 {
        x: tdiv64((p.x - s.pos.x) * FX_ONE, s.radius),
        y: tdiv64((p.y - s.pos.y) * FX_ONE, s.radius),
        z: tdiv64((p.z - s.pos.z) * FX_ONE, s.radius),
    }
}

} // verus!
