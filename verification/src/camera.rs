//! The pinhole camera: an orthonormal-up-to-rounding basis and
//! precomputed image-plane spans, mapping pixel coordinates and
//! sub-pixel jitter to primary rays.

use vstd::prelude::*;
use crate::num::{FX_ONE, COORD_MAX, tdiv, tdiv64, lemma_tdiv_abs_le, lemma_abs_mul_le};
use crate::vec3::{Vec3, in_range, dot_s, normalize_s, neg_s, cross_s, scale_s};
use crate::ray::{Ray, ray_wf};

verus! {

/// The per-pixel ray generator: the eye position, the lower corner of
/// the image plane, its two spanning vectors, the raster dimensions,
/// and the basis vectors they were derived from.
pub struct Camera {
    pub pos: Vec3,
    pub corner: Vec3,
    pub horizontal: Vec3,
    pub vertical: Vec3,
    pub width: usize,
    pub height: usize,
    pub u: Vec3,
    pub v: Vec3,
    pub w: Vec3,
}

/// The basis vector pointing away from the view direction.
pub open spec fn cam_w(dir: Vec3) -> Vec3 {
    neg_s(normalize_s(dir))
}

/// The raw horizontal basis vector, before normalization.
pub open spec fn cam_u_raw(dir: Vec3, up: Vec3) -> Vec3 {
    cross_s(up, cam_w(dir))
}

/// The horizontal basis vector.
pub open spec fn cam_u(dir: Vec3, up: Vec3) -> Vec3 {
    normalize_s(cam_u_raw(dir, up))
}

/// The vertical basis vector.
pub open spec fn cam_v(dir: Vec3, up: Vec3) -> Vec3 {
    cross_s(cam_w(dir), cam_u(dir, up))
}

/// The horizontal image-plane extent from the vertical one and the
/// aspect ratio.
pub open spec fn x_extent(half_height: int, width: int, height: int) -> int {
    tdiv(2 * half_height * width, height)
}

/// Ranges under which ray generation stays within fixed-point bounds.
pub open spec fn camera_wf(cam: Camera) -> bool {
    &&& in_range(cam.pos, COORD_MAX as int)
    &&& in_range(cam.corner, 0x400_0000)
    &&& in_range(cam.horizontal, 0x40_0000)
    &&& in_range(cam.vertical, 0x40_0000)
    &&& 1 <= cam.width <= 16384
    &&& 1 <= cam.height <= 16384
}

/// The jittered in-cell offset of pixel coordinate `x`: the fraction
/// `(jx + x) / width` at the fixed-point scale.
pub open spec fn cell_frac(j: int, x: int, extent: int) -> int {
    tdiv(j + x * FX_ONE, extent)
}

/// The unnormalized direction of the primary ray through the cell
/// fractions `dx`, `dy`.
pub open spec fn ray_dir_raw(cam: Camera, dx: int, dy: int) -> Vec3 {
    let sh = scale_s(cam.horizontal, dx);
    let sv = scale_s(cam.vertical, dy);
    Vec3 {
        x: (cam.corner.x + sh.x + sv.x - cam.pos.x) as i64,
        y: (cam.corner.y + sh.y + sv.y - cam.pos.y) as i64,
        z: (cam.corner.z + sh.z + sv.z - cam.pos.z) as i64,
    }
}

/// The unnormalized direction of the primary ray for jitter `jx`,
/// `jy` at pixel `(x, y)`.
pub open spec fn primary_raw(cam: Camera, x: int, y: int, jx: int, jy: int) -> Vec3 {
    ray_dir_raw(cam, cell_frac(jx, x, cam.width as int), cell_frac(jy, y, cam.height as int))
}

/// The primary ray for jitter `jx`, `jy` at pixel `(x, y)`: the eye,
/// and the normalized direction through the jittered cell point. A
/// sub-unit raw direction (impossible for a camera whose image plane
/// stands one unit from the eye) yields the zero direction, which no
/// sphere intersects.
pub open spec fn primary_ray_s(cam: Camera, x: int, y: int, jx: int, jy: int) -> Ray {
    let d0 = primary_raw(cam, x, y, jx, jy);
    if dot_s(d0, d0) >= FX_ONE * FX_ONE {
        Ray { pos: cam.pos, dir: normalize_s(d0) }
    } else {
        Ray { pos: cam.pos, dir: (Vec3 { x: 0i64, y: 0i64, z: 0i64 }) }
    }
}

impl Camera {
    /// Build a camera from the eye position, view direction (any
    /// nonzero length), up vector, the image-plane half-height
    /// (the tangent of half the vertical field of view, at the
    /// fixed-point scale), and the raster dimensions. Degenerate
    /// inputs — zero sizes, a zero direction, an up vector parallel
    /// to the direction — are ruled out by the preconditions.
    pub fn create(pos: Vec3, dir: Vec3, up: Vec3, half_height: i64, width: usize, height: usize) -> (cam: Camera)
        requires
            in_range(pos, COORD_MAX as int),
            in_range(dir, COORD_MAX as int),
            in_range(up, COORD_MAX as int),
            dot_s(dir, dir) >= FX_ONE * FX_ONE,
            dot_s(cam_u_raw(dir, up), cam_u_raw(dir, up)) >= FX_ONE * FX_ONE,
            1 <= half_height <= 4 * FX_ONE,
            1 <= width <= 16384,
            1 <= height <= 16384,
            x_extent(half_height as int, width as int, height as int) <= 0x20_0000,
        ensures
            camera_wf(cam),
            cam.pos == pos,
            cam.width == width,
            cam.height == height,
            cam.w == cam_w(dir),
            cam.u == cam_u(dir, up),
            cam.v == cam_v(dir, up),
            cam.horizontal == scale_s(cam.u, -x_extent(half_height as int, width as int, height as int)),
            cam.vertical == scale_s(cam.v, 2 * half_height as int),
            cam.corner.x == pos.x - tdiv(cam.horizontal.x as int, 2) - tdiv(cam.vertical.x as int, 2) - cam.w.x,
            cam.corner.y == pos.y - tdiv(cam.horizontal.y as int, 2) - tdiv(cam.vertical.y as int, 2) - cam.w.y,
            cam.corner.z == pos.z - tdiv(cam.horizontal.z as int, 2) - tdiv(cam.vertical.z as int, 2) - cam.w.z,
    {
        let w = dir.normalize().neg();
        let u_raw = up.cross(w);
        proof {
            lemma_abs_mul_le(up.y as int, w.z as int, COORD_MAX as int, FX_ONE as int);
            lemma_abs_mul_le(up.z as int, w.y as int, COORD_MAX as int, FX_ONE as int);
            lemma_abs_mul_le(up.z as int, w.x as int, COORD_MAX as int, FX_ONE as int);
            lemma_abs_mul_le(up.x as int, w.z as int, COORD_MAX as int, FX_ONE as int);
            lemma_abs_mul_le(up.x as int, w.y as int, COORD_MAX as int, FX_ONE as int);
            lemma_abs_mul_le(up.y as int, w.x as int, COORD_MAX as int, FX_ONE as int);
            lemma_tdiv_abs_le(crate::vec3::cross_x_num(up, w), FX_ONE as int, 0x400_0000_0000);
            lemma_tdiv_abs_le(crate::vec3::cross_y_num(up, w), FX_ONE as int, 0x400_0000_0000);
            lemma_tdiv_abs_le(crate::vec3::cross_z_num(up, w), FX_ONE as int, 0x400_0000_0000);
            assert(in_range(u_raw, 0x2000_0000));
        }
        let u = u_raw.normalize();
        let v = w.cross(u);
        proof {
            lemma_abs_mul_le(w.y as int, u.z as int, FX_ONE as int, FX_ONE as int);
            lemma_abs_mul_le(w.z as int, u.y as int, FX_ONE as int, FX_ONE as int);
            lemma_abs_mul_le(w.z as int, u.x as int, FX_ONE as int, FX_ONE as int);
            lemma_abs_mul_le(w.x as int, u.z as int, FX_ONE as int, FX_ONE as int);
            lemma_abs_mul_le(w.x as int, u.y as int, FX_ONE as int, FX_ONE as int);
            lemma_abs_mul_le(w.y as int, u.x as int, FX_ONE as int, FX_ONE as int);
            lemma_tdiv_abs_le(crate::vec3::cross_x_num(w, u), FX_ONE as int, 0x2_0000_0000);
            lemma_tdiv_abs_le(crate::vec3::cross_y_num(w, u), FX_ONE as int, 0x2_0000_0000);
            lemma_tdiv_abs_le(crate::vec3::cross_z_num(w, u), FX_ONE as int, 0x2_0000_0000);
            assert(in_range(v, 0x4_0000));
        }
        let y_size: i64 = 2 * half_height;
        proof {
            lemma_abs_mul_le(y_size as int, width as int, 0x8_0000, 16384);
        }
        let x_size: i64 = tdiv64(y_size * (width as i64), height as i64);
        proof {
            assert(x_size == x_extent(half_height as int, width as int, height as int));
            lemma_tdiv_abs_le(
                2 * half_height as int * width as int, height as int, 0x4000_0000_0000,
            );
        }
        let horizontal = u.scale(-x_size);
        let vertical = v.scale(y_size);
        proof {
            lemma_abs_mul_le(u.x as int, (-x_size) as int, FX_ONE as int, 0x20_0000);
            lemma_abs_mul_le(u.y as int, (-x_size) as int, FX_ONE as int, 0x20_0000);
            lemma_abs_mul_le(u.z as int, (-x_size) as int, FX_ONE as int, 0x20_0000);
            lemma_abs_mul_le(v.x as int, y_size as int, 0x4_0000, 0x8_0000);
            lemma_abs_mul_le(v.y as int, y_size as int, 0x4_0000, 0x8_0000);
            lemma_abs_mul_le(v.z as int, y_size as int, 0x4_0000, 0x8_0000);
            lemma_tdiv_abs_le(u.x as int * (-x_size) as int, FX_ONE as int, 0x200_0000_0000);
            lemma_tdiv_abs_le(u.y as int * (-x_size) as int, FX_ONE as int, 0x200_0000_0000);
            lemma_tdiv_abs_le(u.z as int * (-x_size) as int, FX_ONE as int, 0x200_0000_0000);
            lemma_tdiv_abs_le(v.x as int * y_size as int, FX_ONE as int, 0x200_0000_0000);
            lemma_tdiv_abs_le(v.y as int * y_size as int, FX_ONE as int, 0x200_0000_0000);
            lemma_tdiv_abs_le(v.z as int * y_size as int, FX_ONE as int, 0x200_0000_0000);
        }
        let corner = pos.sub(horizontal.div_int(2)).sub(vertical.div_int(2)).sub(w);
        Camera { pos, corner, horizontal, vertical, width, height, u, v, w }
    }

    /// The primary ray through pixel `(x, y)` with the given sub-pixel
    /// jitter offsets, each a fixed-point fraction in `[0, 1)`.
    pub fn get_ray(&self, x: usize, y: usize, jx: i64, jy: i64) -> (r: Ray)
        requires
            camera_wf(*self),
            x < self.width,
            y < self.height,
            0 <= jx < FX_ONE,
            0 <= jy < FX_ONE,
        ensures
            r == primary_ray_s(*self, x as int, y as int, jx as int, jy as int),
            ray_wf(r),
            dot_s(
                primary_raw(*self, x as int, y as int, jx as int, jy as int),
                primary_raw(*self, x as int, y as int, jx as int, jy as int),
            ) >= FX_ONE * FX_ONE ==> FX_ONE * FX_ONE - 6 * FX_ONE <= dot_s(r.dir, r.dir)
                <= FX_ONE * FX_ONE + 10 * FX_ONE,
    {
        let dx: i64 = tdiv64(jx + (x as i64) * FX_ONE, self.width as i64);
        let dy: i64 = tdiv64(jy + (y as i64) * FX_ONE, self.height as i64);
        proof {
            lemma_cell_frac_bounds(jx as int, x as int, self.width as int);
            lemma_cell_frac_bounds(jy as int, y as int, self.height as int);
        }
        let sh = self.horizontal.scale(dx);
        let sv = self.vertical.scale(dy);
        proof {
            lemma_abs_mul_le(self.horizontal.x as int, dx as int, 0x40_0000, FX_ONE as int);
            lemma_abs_mul_le(self.horizontal.y as int, dx as int, 0x40_0000, FX_ONE as int);
            lemma_abs_mul_le(self.horizontal.z as int, dx as int, 0x40_0000, FX_ONE as int);
            lemma_abs_mul_le(self.vertical.x as int, dy as int, 0x40_0000, FX_ONE as int);
            lemma_abs_mul_le(self.vertical.y as int, dy as int, 0x40_0000, FX_ONE as int);
            lemma_abs_mul_le(self.vertical.z as int, dy as int, 0x40_0000, FX_ONE as int);
            lemma_tdiv_abs_le(self.horizontal.x as int * dx as int, FX_ONE as int, 0x400_0000_0000);
            lemma_tdiv_abs_le(self.horizontal.y as int * dx as int, FX_ONE as int, 0x400_0000_0000);
            lemma_tdiv_abs_le(self.horizontal.z as int * dx as int, FX_ONE as int, 0x400_0000_0000);
            lemma_tdiv_abs_le(self.vertical.x as int * dy as int, FX_ONE as int, 0x400_0000_0000);
            lemma_tdiv_abs_le(self.vertical.y as int * dy as int, FX_ONE as int, 0x400_0000_0000);
            lemma_tdiv_abs_le(self.vertical.z as int * dy as int, FX_ONE as int, 0x400_0000_0000);
        }
        let d0 = Vec3 {
            x: self.corner.x + sh.x + sv.x - self.pos.x,
            y: self.corner.y + sh.y + sv.y - self.pos.y,
            z: self.corner.z + sh.z + sv.z - self.pos.z,
        };
        proof {
            assert(d0 == ray_dir_raw(*self, dx as int, dy as int));
            assert(in_range(d0, 0x1000_0000));
        }
        proof {
            assert(d0 == primary_raw(*self, x as int, y as int, jx as int, jy as int));
        }
        let dd: i64 = d0.dot(d0);
        if dd >= FX_ONE * FX_ONE {
            Ray { pos: self.pos, dir: d0.normalize() }
        } else {
            Ray { pos: self.pos, dir: Vec3 { x: 0, y: 0, z: 0 } }
        }
    }
}

/// The jittered cell fraction lies in the fixed-point unit range.
proof fn lemma_cell_frac_bounds(j: int, x: int, extent: int)
    by (nonlinear_arith)
    requires
        0 <= j < FX_ONE,
        0 <= x < extent,
        1 <= extent <= 16384,
    ensures
        0 <= tdiv(j + x * FX_ONE, extent) < FX_ONE,
        j + x * FX_ONE <= 0x4000_0000,
{
}

} // verus!
