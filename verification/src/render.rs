//! The path integrator and the per-pixel Monte-Carlo driver.

use vstd::prelude::*;
use rand::rngs::StdRng;
use crate::num::{FX_ONE, DIR_MAX, tdiv};
use crate::vec3::{Vec3, in_range, mul_s, dot_s, normalize_s};
use crate::ray::{Ray, ray_wf};
use crate::sphere::lemma_sphere_hit_props;
use crate::scene::{Scene, scene_wf, scene_hit_s, lemma_scene_hit_minimal};
use crate::image::{Image, image_wf};
use crate::camera::{Camera, camera_wf};
use crate::rng::rand_below;
use crate::sphere::Sphere;

verus! {

/// The sky radiance: (173/255, 273/255, 255/255) at the fixed-point
/// scale. The green channel deliberately exceeds 1; the encoders clamp.
pub const SKY_R: i64 = 44461;

pub const SKY_G: i64 = 70161;

pub const SKY_B: i64 = 65535;

/// The fixed radiance returned when a path escapes the scene.
pub open spec fn sky_s() -> Vec3 {
    Vec3 { x: SKY_R, y: SKY_G, z: SKY_B }
}

/// The all-ones accumulator a path starts from.
pub open spec fn ones_s() -> Vec3 {
    Vec3 { x: FX_ONE, y: FX_ONE, z: FX_ONE }
}

/// Every component within `[0, b]`.
pub open spec fn channels_in(v: Vec3, b: int) -> bool {
    &&& 0 <= v.x <= b
    &&& 0 <= v.y <= b
    &&& 0 <= v.z <= b
}

/// The radiance along a path: while bounce budget remains, a miss
/// returns the accumulator attenuated by the sky, and a hit attenuates
/// the accumulator by the sphere's albedo and follows the next bounce
/// direction from the hit position; an exhausted budget returns the
/// accumulator alone.
pub open spec fn trace_s(objs: Seq<Sphere>, ray: Ray, dirs: Seq<Vec3>, acc: Vec3) -> Vec3
    decreases dirs.len(),
{
    if dirs.len() == 0 {
        acc
    } else {
        match scene_hit_s(objs, ray) {
            None => mul_s(acc, sky_s()),
            Some(h) => trace_s(
                objs,
                Ray { pos: h.pos, dir: dirs[0] },
                dirs.skip(1),
                mul_s(acc, h.obj.colour),
            ),
        }
    }
}

/// A rounded fixed-point product of a unit-range factor and a bounded
/// factor stays within the bound.
pub proof fn lemma_mul_fx_bound(a: int, b: int, bb: int)
    by (nonlinear_arith)
    requires
        0 <= a <= FX_ONE,
        0 <= b <= bb,
    ensures
        0 <= tdiv(a * b, FX_ONE as int) <= bb,
{
}

/// With an empty scene every path escapes at once: the result of a
/// fresh trace is exactly the sky colour, whatever the ray and the
/// bounce directions.
pub proof fn lemma_sky_fallback(ray: Ray, dirs: Seq<Vec3>)
    requires
        dirs.len() > 0,
    ensures
        trace_s(Seq::<Sphere>::empty(), ray, dirs, ones_s()) == sky_s(),
{
    assert(scene_hit_s(Seq::<Sphere>::empty(), ray) is None);
    assert(tdiv(FX_ONE * SKY_R, FX_ONE as int) == SKY_R) by (nonlinear_arith);
    assert(tdiv(FX_ONE * SKY_G, FX_ONE as int) == SKY_G) by (nonlinear_arith);
    assert(tdiv(FX_ONE * SKY_B, FX_ONE as int) == SKY_B) by (nonlinear_arith);
}

/// Trace one path through the scene: `dirs` supplies the bounce
/// direction for each permitted bounce, so its length is the depth
/// budget.
pub fn raytrace(scene: &Scene, ray: Ray, dirs: &Vec<Vec3>) -> (c: Vec3)
    requires
        scene_wf(scene.objs@),
        ray_wf(ray),
        forall|i: int| 0 <= i < dirs@.len() ==> in_range(#[trigger] dirs@[i], DIR_MAX as int),
    ensures
        c == trace_s(scene.objs@, ray, dirs@, ones_s()),
        channels_in(c, SKY_G as int),
{
    let mut acc = Vec3 { x: FX_ONE, y: FX_ONE, z: FX_ONE };
    let mut cur = ray;
    let mut d: usize = 0;
    proof {
        assert(dirs@.skip(0) =~= dirs@);
    }
    while d < dirs.len()
        invariant
            scene_wf(scene.objs@),
            ray_wf(cur),
            d <= dirs@.len(),
            forall|i: int| 0 <= i < dirs@.len() ==> in_range(#[trigger] dirs@[i], DIR_MAX as int),
            channels_in(acc, FX_ONE as int),
            trace_s(scene.objs@, cur, dirs@.skip(d as int), acc) == trace_s(
                scene.objs@,
                ray,
                dirs@,
                ones_s(),
            ),
        decreases dirs@.len() - d,
    {
        match scene.hit(cur) {
            None => {
                proof {
                    lemma_mul_fx_bound(acc.x as int, SKY_R as int, SKY_G as int);
                    lemma_mul_fx_bound(acc.y as int, SKY_G as int, SKY_G as int);
                    lemma_mul_fx_bound(acc.z as int, SKY_B as int, SKY_G as int);
                }
                let c = acc.mul(Vec3 { x: SKY_R, y: SKY_G, z: SKY_B });
                return c;
            },
            Some(rec) => {
                proof {
                    lemma_scene_hit_minimal(scene.objs@, cur);
                    let i = choose|i: int|
                        0 <= i < scene.objs@.len() && #[trigger] crate::sphere::sphere_hit_s(
                            scene.objs@[i],
                            cur,
                        ) == Some(rec);
                    lemma_sphere_hit_props(scene.objs@[i], cur);
                    lemma_mul_fx_bound(acc.x as int, rec.obj.colour.x as int, FX_ONE as int);
                    lemma_mul_fx_bound(acc.y as int, rec.obj.colour.y as int, FX_ONE as int);
                    lemma_mul_fx_bound(acc.z as int, rec.obj.colour.z as int, FX_ONE as int);
                    assert(dirs@.skip(d as int).skip(1) =~= dirs@.skip(d + 1 as int));
                }
                acc = acc.mul(rec.obj.colour);
                cur = Ray { pos: rec.pos, dir: dirs[d] };
                d = d + 1;
            },
        }
    }
    acc
}

/// A uniform fixed-point draw in `[0, 1)`.
pub fn rand_fraction(rng: &mut StdRng) -> (j: i64)
    ensures
        0 <= j < FX_ONE,
{
    rand_below(rng, FX_ONE as u64) as i64
}

/// What `Vec3::random` returns, whatever the generator produced: the
/// normalization of some nonzero candidate within the doubled draw
/// range, or the fixed fallback axis for the (practically impossible)
/// all-zero draw.
pub open spec fn is_random_unit(v: Vec3) -> bool {
    ||| exists|c: Vec3|
        in_range(c, 0x4_0000) && dot_s(c, c) >= FX_ONE * FX_ONE && v == normalize_s(c)
    ||| v == (Vec3 { x: 0i64, y: 0i64, z: FX_ONE })
}

impl Vec3 {
    /// An approximately uniform random unit vector: each component is
    /// drawn uniformly in `[-1, 1]` and the triple normalized; the
    /// (practically impossible) all-zero draw is retried a few times,
    /// then replaced by a fixed axis. A short nonzero draw is doubled
    /// until it reaches unit scale, which leaves its direction exact.
    pub fn random(rng: &mut StdRng) -> (v: Vec3)
        ensures
            in_range(v, FX_ONE as int),
            is_random_unit(v),
            FX_ONE * FX_ONE - 6 * FX_ONE <= dot_s(v, v) <= FX_ONE * FX_ONE + 10
                * FX_ONE,
    {
        let mut attempts: usize = 0;
        while attempts < 8
            invariant
                attempts <= 8,
            decreases 8 - attempts,
        {
            let x: i64 = rand_below(rng, 2 * (FX_ONE as u64) + 1) as i64 - FX_ONE;
            let y: i64 = rand_below(rng, 2 * (FX_ONE as u64) + 1) as i64 - FX_ONE;
            let z: i64 = rand_below(rng, 2 * (FX_ONE as u64) + 1) as i64 - FX_ONE;
            let mut cand = Vec3 { x, y, z };
            let mut d: i64 = cand.dot(cand);
            let mut scaling: usize = 0;
            while d < FX_ONE * FX_ONE && 1 <= d && scaling < 40
                invariant
                    in_range(cand, (2 * FX_ONE) as int),
                    d == dot_s(cand, cand),
                    scaling <= 40,
                decreases 40 - scaling,
            {
                proof {
                    lemma_short_components(cand, d as int);
                }
                cand = Vec3 { x: 2 * cand.x, y: 2 * cand.y, z: 2 * cand.z };
                d = cand.dot(cand);
                scaling = scaling + 1;
            }
            if d >= FX_ONE * FX_ONE {
                let u = cand.normalize();
                proof {
                    assert(in_range(cand, 0x4_0000));
                    assert(is_random_unit(u));
                }
                return u;
            }
            attempts = attempts + 1;
        }
        let f = Vec3 { x: 0, y: 0, z: FX_ONE };
        proof {
            assert(is_random_unit(f));
            assert(dot_s(f, f) == FX_ONE * FX_ONE) by (nonlinear_arith)
                requires
                    f == (Vec3 { x: 0i64, y: 0i64, z: FX_ONE }),
                {
                };
        }
        f
    }
}

/// A vector of squared length under the unit square has components
/// strictly under one unit.
proof fn lemma_short_components(v: Vec3, d: int)
    by (nonlinear_arith)
    requires
        d == dot_s(v, v),
        d < FX_ONE * FX_ONE,
    ensures
        -FX_ONE < v.x < FX_ONE,
        -FX_ONE < v.y < FX_ONE,
        -FX_ONE < v.z < FX_ONE,
{
}

/// Draw one fresh bounce direction per permitted bounce.
fn draw_dirs(rng: &mut StdRng, max_depth: usize) -> (dirs: Vec<Vec3>)
    ensures
        dirs@.len() == max_depth,
        forall|i: int| 0 <= i < dirs@.len() ==> in_range(#[trigger] dirs@[i], DIR_MAX as int),
        forall|i: int| 0 <= i < dirs@.len() ==> is_random_unit(#[trigger] dirs@[i]),
{
    let mut dirs: Vec<Vec3> = Vec::new();
    while dirs.len() < max_depth
        invariant
            dirs@.len() <= max_depth,
            forall|i: int| 0 <= i < dirs@.len() ==> in_range(#[trigger] dirs@[i], DIR_MAX as int),
            forall|i: int| 0 <= i < dirs@.len() ==> is_random_unit(#[trigger] dirs@[i]),
        decreases max_depth - dirs.len(),
    {
        let v = Vec3::random(rng);
        dirs.push(v);
    }
    dirs
}

/// Admissible draws for `n` samples at depth `depth`: per-sample
/// jitters within the unit cell, and per-sample direction lists of the
/// permitted depth whose entries are random unit vectors.
pub open spec fn draws_ok(
    jxs: Seq<i64>,
    jys: Seq<i64>,
    dirss: Seq<Seq<Vec3>>,
    n: int,
    depth: int,
) -> bool {
    &&& jxs.len() == n
    &&& jys.len() == n
    &&& dirss.len() == n
    &&& forall|k: int| 0 <= k < n ==> 0 <= #[trigger] jxs[k] < FX_ONE
    &&& forall|k: int| 0 <= k < n ==> 0 <= #[trigger] jys[k] < FX_ONE
    &&& forall|k: int| 0 <= k < n ==> (#[trigger] dirss[k]).len() == depth
    &&& forall|k: int, i: int|
        0 <= k < n && 0 <= i < depth ==> is_random_unit(#[trigger] dirss[k][i])
}

/// The componentwise sum of the first `n` traced samples of pixel
/// `(x, y)` under the given draws.
pub open spec fn traces_sum(
    objs: Seq<Sphere>,
    cam: Camera,
    x: int,
    y: int,
    jxs: Seq<i64>,
    jys: Seq<i64>,
    dirss: Seq<Seq<Vec3>>,
    n: int,
) -> (int, int, int)
    decreases n,
{
    if n <= 0 {
        (0, 0, 0)
    } else {
        let prev = traces_sum(objs, cam, x, y, jxs, jys, dirss, n - 1);
        let t = trace_s(
            objs,
            crate::camera::primary_ray_s(cam, x, y, jxs[n - 1] as int, jys[n - 1] as int),
            dirss[n - 1],
            ones_s(),
        );
        (prev.0 + t.x, prev.1 + t.y, prev.2 + t.z)
    }
}

/// `c` is the truncated mean of `n` traced samples of pixel `(x, y)`
/// for some admissible jitters and bounce directions.
pub open spec fn is_sample_mean(
    c: Vec3,
    objs: Seq<Sphere>,
    cam: Camera,
    x: int,
    y: int,
    n: int,
    depth: int,
) -> bool {
    exists|jxs: Seq<i64>, jys: Seq<i64>, dirss: Seq<Seq<Vec3>>|
        {
            &&& #[trigger] draws_ok(jxs, jys, dirss, n, depth)
            &&& c.x == tdiv(traces_sum(objs, cam, x, y, jxs, jys, dirss, n).0, n)
            &&& c.y == tdiv(traces_sum(objs, cam, x, y, jxs, jys, dirss, n).1, n)
            &&& c.z == tdiv(traces_sum(objs, cam, x, y, jxs, jys, dirss, n).2, n)
        }
}

/// The sum of traces reads only the first `n` entries of the draws.
proof fn lemma_traces_sum_prefix(
    objs: Seq<Sphere>,
    cam: Camera,
    x: int,
    y: int,
    jxs1: Seq<i64>,
    jys1: Seq<i64>,
    dirss1: Seq<Seq<Vec3>>,
    jxs2: Seq<i64>,
    jys2: Seq<i64>,
    dirss2: Seq<Seq<Vec3>>,
    n: int,
)
    requires
        forall|k: int| 0 <= k < n ==> #[trigger] jxs1[k] == jxs2[k],
        forall|k: int| 0 <= k < n ==> #[trigger] jys1[k] == jys2[k],
        forall|k: int| 0 <= k < n ==> #[trigger] dirss1[k] == dirss2[k],
    ensures
        traces_sum(objs, cam, x, y, jxs1, jys1, dirss1, n) == traces_sum(
            objs,
            cam,
            x,
            y,
            jxs2,
            jys2,
            dirss2,
            n,
        ),
    decreases n,
{
    if n > 0 {
        lemma_traces_sum_prefix(objs, cam, x, y, jxs1, jys1, dirss1, jxs2, jys2, dirss2, n - 1);
    }
}

/// The Monte-Carlo mean of `num_samples` independently jittered paths
/// through pixel `(x, y)` (in camera orientation): for some admissible
/// jitters and bounce directions, the truncated mean of their traces;
/// and radiance is bounded by the largest sky channel whatever the
/// draws.
pub fn sample_pixel(
    scene: &Scene,
    cam: &Camera,
    x: usize,
    y: usize,
    num_samples: usize,
    max_depth: usize,
    rng: &mut StdRng,
) -> (c: Vec3)
    requires
        scene_wf(scene.objs@),
        camera_wf(*cam),
        x < cam.width,
        y < cam.height,
        1 <= num_samples <= 100000,
        max_depth <= 256,
    ensures
        channels_in(c, SKY_G as int),
        is_sample_mean(
            c,
            scene.objs@,
            *cam,
            x as int,
            y as int,
            num_samples as int,
            max_depth as int,
        ),
{
    let mut sum = Vec3 { x: 0, y: 0, z: 0 };
    let mut s: usize = 0;
    let ghost mut gjxs: Seq<i64> = Seq::empty();
    let ghost mut gjys: Seq<i64> = Seq::empty();
    let ghost mut gdirss: Seq<Seq<Vec3>> = Seq::empty();
    while s < num_samples
        invariant
            scene_wf(scene.objs@),
            camera_wf(*cam),
            x < cam.width,
            y < cam.height,
            num_samples <= 100000,
            max_depth <= 256,
            s <= num_samples,
            channels_in(sum, s as int * SKY_G as int),
            draws_ok(gjxs, gjys, gdirss, s as int, max_depth as int),
            sum.x == traces_sum(
                scene.objs@,
                *cam,
                x as int,
                y as int,
                gjxs,
                gjys,
                gdirss,
                s as int,
            ).0,
            sum.y == traces_sum(
                scene.objs@,
                *cam,
                x as int,
                y as int,
                gjxs,
                gjys,
                gdirss,
                s as int,
            ).1,
            sum.z == traces_sum(
                scene.objs@,
                *cam,
                x as int,
                y as int,
                gjxs,
                gjys,
                gdirss,
                s as int,
            ).2,
        decreases num_samples - s,
    {
        let jx = rand_fraction(rng);
        let jy = rand_fraction(rng);
        let ray = cam.get_ray(x, y, jx, jy);
        let dirs = draw_dirs(rng, max_depth);
        let c = raytrace(scene, ray, &dirs);
        proof {
            assert(s as int * SKY_G as int + SKY_G as int == (s + 1) as int * SKY_G as int)
                by (nonlinear_arith);
            assert(s as int * SKY_G as int <= 100000 * SKY_G as int) by (nonlinear_arith)
                requires
                    0 <= s as int <= 100000,
                {
                };
        }
        sum = Vec3 { x: sum.x + c.x, y: sum.y + c.y, z: sum.z + c.z };
        proof {
            let prev_jxs = gjxs;
            let prev_jys = gjys;
            let prev_dirss = gdirss;
            gjxs = gjxs.push(jx);
            gjys = gjys.push(jy);
            gdirss = gdirss.push(dirs@);
            lemma_traces_sum_prefix(
                scene.objs@, *cam, x as int, y as int,
                gjxs, gjys, gdirss,
                prev_jxs, prev_jys, prev_dirss,
                s as int,
            );
            assert(gjxs[s as int] == jx && gjys[s as int] == jy && gdirss[s as int] == dirs@);
            assert(c == trace_s(
                scene.objs@,
                crate::camera::primary_ray_s(*cam, x as int, y as int, jx as int, jy as int),
                dirs@,
                ones_s(),
            ));
        }
        s = s + 1;
    }
    proof {
        assert(sum.x as int <= num_samples as int * SKY_G as int);
        assert(num_samples as int * SKY_G as int <= 100000 * SKY_G as int) by (nonlinear_arith)
            requires
                1 <= num_samples as int <= 100000,
            {
            };
        lemma_mean_bound(sum.x as int, num_samples as int);
        lemma_mean_bound(sum.y as int, num_samples as int);
        lemma_mean_bound(sum.z as int, num_samples as int);
    }
    let c = sum.div_int(num_samples as i64);
    proof {
        assert(draws_ok(gjxs, gjys, gdirss, num_samples as int, max_depth as int));
        assert(is_sample_mean(
            c,
            scene.objs@,
            *cam,
            x as int,
            y as int,
            num_samples as int,
            max_depth as int,
        ));
    }
    c
}

/// The mean of `n` samples each bounded by the sky bound is bounded by
/// the sky bound.
proof fn lemma_mean_bound(sum: int, n: int)
    by (nonlinear_arith)
    requires
        1 <= n,
        0 <= sum <= n * SKY_G as int,
    ensures
        0 <= tdiv(sum, n) <= SKY_G as int,
{
}

/// A flat row-major position decomposes into its column and row.
proof fn lemma_flat_index(w: int, x: int, y: int)
    by (nonlinear_arith)
    requires
        0 <= x < w,
        0 <= y,
    ensures
        (x + y * w) % w == x,
        (x + y * w) / w == y,
{
}

/// Render the scene: every pixel of the buffer is the mean of
/// `num_samples` jittered paths through it for some admissible draws,
/// and every channel lies within the radiance range capped by the
/// largest sky channel. Image rows count downward, so row `y` of the
/// buffer is sampled at camera row `height - 1 - y`.
pub fn render(
    scene: &Scene,
    cam: &Camera,
    img: &mut Image,
    num_samples: usize,
    max_depth: usize,
    rng: &mut StdRng,
)
    requires
        scene_wf(scene.objs@),
        camera_wf(*cam),
        image_wf(*old(img)),
        old(img).width == cam.width,
        old(img).height == cam.height,
        1 <= num_samples <= 100000,
        max_depth <= 256,
    ensures
        image_wf(*final(img)),
        final(img).width == old(img).width,
        final(img).height == old(img).height,
        forall|k: int|
            0 <= k < final(img).data@.len() ==> channels_in(
                #[trigger] final(img).data@[k],
                SKY_G as int,
            ),
        forall|xx: int, yy: int|
            0 <= xx < final(img).width && 0 <= yy < final(img).height ==> is_sample_mean(
                #[trigger] final(img).data@[xx + yy * final(img).width],
                scene.objs@,
                *cam,
                xx,
                final(img).height - 1 - yy,
                num_samples as int,
                max_depth as int,
            ),
{
    let ghost w = img.width as int;
    let mut y: usize = 0;
    while y < img.height
        invariant
            scene_wf(scene.objs@),
            camera_wf(*cam),
            image_wf(*img),
            img.width == cam.width,
            img.height == cam.height,
            w == img.width as int,
            num_samples >= 1,
            num_samples <= 100000,
            max_depth <= 256,
            y <= img.height,
            forall|k: int| 0 <= k < y * w ==> channels_in(#[trigger] img.data@[k], SKY_G as int),
            forall|k: int|
                0 <= k < y * w ==> is_sample_mean(
                    #[trigger] img.data@[k],
                    scene.objs@,
                    *cam,
                    k % w,
                    img.height - 1 - k / w,
                    num_samples as int,
                    max_depth as int,
                ),
        decreases img.height - y,
    {
        proof {
            assert(y * w + w <= img.height as int * w) by (nonlinear_arith)
                requires
                    y as int + 1 <= img.height as int,
                    w >= 0,
                {
                };
            assert(img.height as int * w == w * img.height as int) by (nonlinear_arith);
        }
        let mut x: usize = 0;
        while x < img.width
            invariant
                scene_wf(scene.objs@),
                camera_wf(*cam),
                image_wf(*img),
                img.width == cam.width,
                img.height == cam.height,
                w == img.width as int,
                num_samples >= 1,
                num_samples <= 100000,
                max_depth <= 256,
                y < img.height,
                x <= img.width,
                y * w + w <= img.data@.len(),
                forall|k: int|
                    0 <= k < y * w + x ==> channels_in(#[trigger] img.data@[k], SKY_G as int),
                forall|k: int|
                    0 <= k < y * w + x ==> is_sample_mean(
                        #[trigger] img.data@[k],
                        scene.objs@,
                        *cam,
                        k % w,
                        img.height - 1 - k / w,
                        num_samples as int,
                        max_depth as int,
                    ),
            decreases img.width - x,
        {
            let c = sample_pixel(scene, cam, x, img.height - 1 - y, num_samples, max_depth, rng);
            let ghost before = img.data@;
            img.set_pixel(x, y, c);
            proof {
                assert(img.data@ == before.update(x as int + y as int * w, c));
                lemma_flat_index(w, x as int, y as int);
                assert forall|k: int| 0 <= k < y * w + x + 1 implies channels_in(
                    #[trigger] img.data@[k],
                    SKY_G as int,
                ) && is_sample_mean(
                    img.data@[k],
                    scene.objs@,
                    *cam,
                    k % w,
                    img.height - 1 - k / w,
                    num_samples as int,
                    max_depth as int,
                ) by {
                    if k < y * w + x {
                        assert(img.data@[k] == before[k]);
                    } else {
                        assert(k == x + y * w);
                        assert(img.data@[k] == c);
                        assert(k % w == x as int && k / w == y as int);
                    }
                }
            }
            x = x + 1;
        }
        proof {
            assert((y + 1) as int * w == y * w + w) by (nonlinear_arith);
        }
        y = y + 1;
    }
    proof {
        assert(img.height as int * w == w * img.height as int) by (nonlinear_arith);
        assert forall|xx: int, yy: int|
            0 <= xx < img.width && 0 <= yy < img.height implies is_sample_mean(
            #[trigger] img.data@[xx + yy * w],
            scene.objs@,
            *cam,
            xx,
            img.height - 1 - yy,
            num_samples as int,
            max_depth as int,
        ) by {
            crate::image::lemma_pixel_index(w, img.height as int, xx, yy);
            lemma_flat_index(w, xx, yy);
        }
    }
}

} // verus!
