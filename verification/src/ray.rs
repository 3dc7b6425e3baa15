//! Rays: an origin and a direction, with point-at-parameter.

use vstd::prelude::*;
use crate::num::{FX_ONE, ORIGIN_MAX, DIR_MAX, T_CAP, tdiv, tdiv64, lemma_abs_mul_le};
use crate::vec3::{Vec3, in_range};

verus! {

/// A ray segment of a light path. The driver rebinds `pos` and `dir`
/// in place to represent the next bounce.
#[derive(Clone, Copy, PartialEq, Eq, Structural, Debug)]
pub struct Ray {
    pub pos: Vec3,
    pub dir: Vec3,
}

/// Rays the pipeline traces: origin within the world range, direction
/// components within the unit-vector range.
pub open spec fn ray_wf(r: Ray) -> bool {
    &&& in_range(r.pos, ORIGIN_MAX as int)
    &&& in_range(r.dir, DIR_MAX as int)
}

/// The exact value of `Ray::at`: origin plus the parameter times the
/// direction, truncated at the fixed-point scale.
pub open spec fn at_s(r: Ray, t: int) -> Vec3 {
    Vec3 {
        x: (r.pos.x + tdiv(t * r.dir.x, FX_ONE as int)) as i64,
        y: (r.pos.y + tdiv(t * r.dir.y, FX_ONE as int)) as i64,
        z: (r.pos.z + tdiv(t * r.dir.z, FX_ONE as int)) as i64,
    }
}

impl Ray {
    pub fn new(pos: Vec3, dir: Vec3) -> (r: Ray)
        ensures
            r == (Ray { pos, dir }),
    {
        Ray { pos, dir }
    }

    /// The point at parameter `t` along the ray.
    pub fn at(self, t: i64) -> (p: Vec3)
        requires
            ray_wf(self),
            0 <= t <= T_CAP,
        ensures
            p == at_s(self, t as int),
            in_range(p, (ORIGIN_MAX + 3 * T_CAP) as int),
    {
        proof {
            lemma_abs_mul_le(t as int, self.dir.x as int, T_CAP as int, DIR_MAX as int);
            lemma_abs_mul_le(t as int, self.dir.y as int, T_CAP as int, DIR_MAX as int);
            lemma_abs_mul_le(t as int, self.dir.z as int, T_CAP as int, DIR_MAX as int);
        }
        Vec3 {
            x: self.pos.x + tdiv64(t * self.dir.x, FX_ONE),
            y: self.pos.y + tdiv64(t * self.dir.y, FX_ONE),
            z: self.pos.z + tdiv64(t * self.dir.z, FX_ONE),
        }
    }
}

} // verus!
