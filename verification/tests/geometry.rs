use raytracer::num::{FX_ONE, EPS_T};
use raytracer::vec3::Vec3;
use raytracer::ray::Ray;
use raytracer::sphere::Sphere;
use raytracer::scene::Scene;
use raytracer::camera::Camera;

const S: i64 = FX_ONE;

fn v(x: i64, y: i64, z: i64) -> Vec3 {
    Vec3::new(x, y, z)
}

#[test]
fn add_commutes_and_associates() {
    let a = v(3, -7, 11);
    let b = v(100, 250, -40);
    let c = v(-9, 6, 5);
    assert_eq!(a.add(b), b.add(a));
    assert_eq!(a.add(b).add(c), a.add(b.add(c)));
}

#[test]
fn scalar_multiplication_distributes() {
    // Components are multiples of the scale, so the rounded broadcast
    // product is exact and distributivity holds at the value level.
    let a = v(2 * S, -3 * S, 5 * S);
    let b = v(7 * S, S, -2 * S);
    let s: i64 = 12345;
    assert_eq!(a.add(b).scale(s), a.scale(s).add(b.scale(s)));
}

#[test]
fn dot_is_symmetric() {
    let a = v(12345, -678, 44);
    let b = v(-999, 32109, 7);
    assert_eq!(a.dot(b), b.dot(a));
}

#[test]
fn cross_is_orthogonal_on_exact_vectors() {
    // Multiples of the scale make the rounded cross product exact.
    let a = v(S, 0, 0);
    let b = v(0, S, 0);
    let c = a.cross(b);
    assert_eq!(c, v(0, 0, S));
    assert_eq!(c.dot(a), 0);
    assert_eq!(c.dot(b), 0);

    let a2 = v(2 * S, 3 * S, 0);
    let b2 = v(0, 5 * S, 7 * S);
    let c2 = a2.cross(b2);
    assert_eq!(c2.dot(a2), 0);
    assert_eq!(c2.dot(b2), 0);
}

#[test]
fn length_is_exact_on_pythagorean_triples() {
    assert_eq!(v(3 * S, 4 * S, 0).length(), 5 * S);
    assert_eq!(v(0, 0, 2 * S).length(), 2 * S);
    assert_eq!(v(1, 1, 1).length(), 1);
}

#[test]
fn normalize_gives_a_unit_vector() {
    let n = v(3 * S, 4 * S, 0).normalize();
    assert_eq!(n, v(39321, 52428, 0));
    let d = n.dot(n);
    assert!((d - S * S).abs() < 3 * S, "squared length {} off unit", d);

    let n2 = v(17 * S, -40 * S, 9 * S).normalize();
    let d2 = n2.dot(n2);
    assert!((d2 - S * S).abs() <= 10 * S, "squared length {} off the unit band", d2);
}

#[test]
fn length_reciprocal_matches_division() {
    assert_eq!(v(0, 0, 2 * S).length_reciprocal(), S / 2);
    assert_eq!(v(S, 0, 0).length_reciprocal(), S);
}

#[test]
fn fixed_point_division_is_exact() {
    let a = v(6 * S, -6 * S, 3 * S);
    let b = v(2 * S, 3 * S, -2 * S);
    assert_eq!(a.div(b), v(3 * S, -2 * S, -(3 * S) / 2));
    assert_eq!(a.div_scalar(3 * S), v(2 * S, -2 * S, S));
    assert_eq!(a.div_scalar(-2 * S), v(-3 * S, 3 * S, -(3 * S) / 2));
}

#[test]
fn ray_at_walks_the_direction() {
    let r = Ray::new(v(S, 0, 0), v(0, 0, S));
    assert_eq!(r.at(4 * S), v(S, 0, 4 * S));
    assert_eq!(r.at(0), v(S, 0, 0));
}

fn unit_sphere() -> Sphere {
    Sphere { pos: v(0, 0, 0), colour: v(S, S, S), radius: S }
}

#[test]
fn sphere_hit_head_on() {
    // A ray from (0,0,-5) toward (0,0,1) meets the unit sphere at t = 4
    // with outward normal (0,0,-1).
    let r = Ray::new(v(0, 0, -5 * S), v(0, 0, S));
    let hit = unit_sphere().hit(r).expect("must intersect");
    assert_eq!(hit.t, 4 * S);
    assert_eq!(hit.pos, v(0, 0, -S));
    assert_eq!(hit.normal, v(0, 0, -S));
    assert_eq!(hit.obj, unit_sphere());
}

#[test]
fn sphere_miss_returns_none() {
    let r = Ray::new(v(0, 0, -5 * S), v(0, S, 0));
    assert!(unit_sphere().hit(r).is_none());
}

#[test]
fn sphere_hit_from_inside_returns_far_root() {
    let r = Ray::new(v(0, 0, 0), v(0, 0, S));
    let hit = unit_sphere().hit(r).expect("must intersect from inside");
    assert_eq!(hit.t, S);
    assert_eq!(hit.pos, v(0, 0, S));
}

#[test]
fn self_intersection_is_rejected() {
    // A bounce starting on the surface and pointing back through the
    // sphere must not re-hit at a parameter below the epsilon guard.
    let r = Ray::new(v(0, 0, -S), v(0, 0, S));
    let hit = unit_sphere().hit(r).expect("must cross to the far side");
    assert!(hit.t >= EPS_T);
    assert_eq!(hit.t, 2 * S);
}

#[test]
fn closest_hit_takes_smaller_t() {
    let far = Sphere { pos: v(0, 0, 6 * S), colour: v(S, 0, 0), radius: S };
    let near = Sphere { pos: v(0, 0, 3 * S), colour: v(0, S, 0), radius: S };
    let mut scene = Scene::new();
    scene.add(far);
    scene.add(near);
    let hit = scene.hit(Ray::new(v(0, 0, 0), v(0, 0, S))).expect("both intersect");
    assert_eq!(hit.t, 2 * S);
    assert_eq!(hit.obj.colour, v(0, S, 0));
}

#[test]
fn closest_hit_tie_goes_to_first() {
    let first = Sphere { pos: v(0, 0, 3 * S), colour: v(S, 0, 0), radius: S };
    let second = Sphere { pos: v(0, 0, 3 * S), colour: v(0, 0, S), radius: S };
    let mut scene = Scene::new();
    scene.add(first);
    scene.add(second);
    let hit = scene.hit(Ray::new(v(0, 0, 0), v(0, 0, S))).expect("both intersect");
    assert_eq!(hit.obj.colour, v(S, 0, 0));
}

#[test]
fn empty_scene_has_no_hit() {
    let scene = Scene::new();
    assert!(scene.hit(Ray::new(v(0, 0, 0), v(0, 0, S))).is_none());
}

fn test_camera(width: usize, height: usize) -> Camera {
    // Eye at the origin looking +z, up +y, vertical fov 40 degrees:
    // the half-height is tan(20 degrees) at the fixed-point scale.
    Camera::create(v(0, 0, 0), v(0, 0, S), v(0, S, 0), 23854, width, height)
}

#[test]
fn camera_corner_rays_stay_in_the_frustum() {
    let w: usize = 64;
    let h: usize = 48;
    let cam = test_camera(w, h);
    let corners = [(0usize, 0usize), (w - 1, 0), (0, h - 1), (w - 1, h - 1)];
    for (x, y) in corners {
        let r = cam.get_ray(x, y, 0, 0);
        assert_eq!(r.pos, v(0, 0, 0));
        // Forward, and within 45 degrees of the axis in each plane:
        // fov 40 with a 4:3 aspect keeps every pixel inside that cone.
        assert!(r.dir.z() > 0);
        assert!(r.dir.x().abs() < r.dir.z());
        assert!(r.dir.y().abs() < r.dir.z());
    }
    // Opposite corners mirror each other's lateral signs.
    let tl = cam.get_ray(0, h - 1, 0, 0);
    let br = cam.get_ray(w - 1, 0, 0, 0);
    assert!(tl.dir.x() < 0 && br.dir.x() > 0);
    assert!(tl.dir.y() > 0 && br.dir.y() < 0);
}

#[test]
fn camera_centre_pixel_points_along_view() {
    let w: usize = 101;
    let h: usize = 101;
    let cam = test_camera(w, h);
    // Half-pixel jitter bound: the centre cell spans about 1/101 of the
    // image plane, so each lateral component is a small fraction of z.
    let r = cam.get_ray(w / 2, h / 2, S / 2, S / 2);
    assert!(r.dir.z() > 60000);
    assert!(r.dir.x().abs() <= 2 * (r.dir.z() / 100));
    assert!(r.dir.y().abs() <= 2 * (r.dir.z() / 100));
}
