use raytracer::num::FX_ONE;
use raytracer::vec3::Vec3;
use raytracer::sphere::Sphere;
use raytracer::ray::Ray;
use raytracer::scene::Scene;
use raytracer::camera::Camera;
use raytracer::image::Image;
use raytracer::render::{render, raytrace, sample_pixel, SKY_R, SKY_G, SKY_B};
use raytracer::rng::rng_from_seed;
use raytracer::format::SaveError;

const S: i64 = FX_ONE;

fn v(x: i64, y: i64, z: i64) -> Vec3 {
    Vec3::new(x, y, z)
}

fn sky() -> Vec3 {
    v(SKY_R, SKY_G, SKY_B)
}

/// Eye at (0,0,-5) looking +z, up +y, vertical fov 40 degrees.
fn spec_camera(width: usize, height: usize) -> Camera {
    Camera::create(v(0, 0, -5 * S), v(0, 0, S), v(0, S, 0), 23854, width, height)
}

fn big_ground_sphere() -> Sphere {
    // centre (0, -100.5, 1), radius 100, albedo (1, 0.6, 0.3)
    Sphere { pos: v(0, -6586268, S), colour: v(S, 39321, 19661), radius: 100 * S }
}

#[test]
fn empty_scene_every_pixel_is_sky() {
    // S1: a 4x3 render of the empty scene is the sky colour everywhere,
    // whatever the seed, and its encoding clamps the green channel.
    let scene = Scene::new();
    let cam = spec_camera(4, 3);
    let mut img = Image::create(4, 3);
    let mut rng = rng_from_seed(12345);
    render(&scene, &cam, &mut img, 3, 5, &mut rng);
    for y in 0..3 {
        for x in 0..4 {
            assert_eq!(img.get_pixel(x, y), sky());
        }
    }
    let bytes = img.to_ppm();
    // Header "P6 4 3 255\n" is 11 bytes; every pixel is (173, 255, 255).
    assert_eq!(&bytes[..11], b"P6 4 3 255\n");
    assert_eq!(bytes.len(), 11 + 3 * 12);
    for p in 0..12 {
        assert_eq!(bytes[11 + 3 * p], 173);
        assert_eq!(bytes[11 + 3 * p + 1], 255);
        assert_eq!(bytes[11 + 3 * p + 2], 255);
    }
}

#[test]
fn big_sphere_splits_sky_and_ground() {
    // S2: the top half of the image sees only sky; the bottom rows are
    // attenuated by the ground albedo, whose blue factor is 0.3.
    let mut scene = Scene::new();
    scene.add(big_ground_sphere());
    let cam = spec_camera(9, 9);
    let mut img = Image::create(9, 9);
    let mut rng = rng_from_seed(7);
    render(&scene, &cam, &mut img, 20, 5, &mut rng);
    // Rays with a non-negative vertical component cannot reach the
    // sphere, whose topmost point sits at y = -0.5.
    assert_eq!(img.get_pixel(4, 0), sky());
    assert_eq!(img.get_pixel(0, 0), sky());
    assert_eq!(img.get_pixel(8, 0), sky());
    let bottom = img.get_pixel(4, 8);
    assert_ne!(bottom, sky());
    assert!(bottom.b() <= 19661, "blue must be attenuated by 0.3: {}", bottom.b());
}

#[test]
fn two_small_spheres_tint_left_and_right() {
    // S3: a blue sphere left of centre, a red one right of centre, both
    // on the ground of the big-sphere scene.
    let mut scene = Scene::new();
    scene.add(big_ground_sphere());
    scene.add(Sphere { pos: v(-39321, 0, S), colour: v(13107, 13107, S), radius: 32767 });
    scene.add(Sphere { pos: v(39321, 0, S), colour: v(S, 13107, 13107), radius: 32767 });
    let cam = spec_camera(33, 33);
    let mut img = Image::create(33, 33);
    let mut rng = rng_from_seed(11);
    render(&scene, &cam, &mut img, 150, 5, &mut rng);
    let left = img.get_pixel(12, 16);
    let right = img.get_pixel(20, 16);
    assert!(left.b() > left.r(), "left disc should lean blue: {:?}", left);
    assert!(right.r() > right.b(), "right disc should lean red: {:?}", right);
}

#[test]
fn enclosing_sphere_caps_the_depth() {
    // S4 core: when every permitted bounce hits, the integrator
    // returns the accumulated albedo product with no sky term. The
    // eye sits inside a sphere of albedo one half and the bounce
    // directions are chosen to re-enter it each time.
    let mut scene = Scene::new();
    scene.add(Sphere { pos: v(0, 0, 0), colour: v(32767, 32767, 32767), radius: 2 * S });
    let primary = Ray::new(v(0, 0, 0), v(0, 0, S));
    // 1 * 0.5 three times under truncating fixed-point: 32767, 16383, 8191.
    let dirs = vec![v(0, 0, -S), v(0, 0, S), v(0, 0, -S)];
    assert_eq!(raytrace(&scene, primary, &dirs), v(8191, 8191, 8191));
    // A shorter budget stops one factor earlier.
    let dirs2 = vec![v(0, 0, -S), v(0, 0, S)];
    assert_eq!(raytrace(&scene, primary, &dirs2), v(16383, 16383, 16383));
}

#[test]
fn determinism_fixed_seed() {
    let mut scene = Scene::new();
    scene.add(big_ground_sphere());
    scene.add(Sphere { pos: v(-39321, 0, S), colour: v(13107, 13107, S), radius: 32767 });
    let cam = spec_camera(8, 6);
    let mut a = Image::create(8, 6);
    let mut b = Image::create(8, 6);
    let mut rng_a = rng_from_seed(99);
    let mut rng_b = rng_from_seed(99);
    render(&scene, &cam, &mut a, 4, 4, &mut rng_a);
    render(&scene, &cam, &mut b, 4, 4, &mut rng_b);
    for y in 0..6 {
        for x in 0..8 {
            assert_eq!(a.get_pixel(x, y), b.get_pixel(x, y));
        }
    }
}

#[test]
fn doubling_samples_shrinks_the_deviation() {
    // S5: the standard deviation of repeated per-pixel means drops by
    // about the square root of the sample factor; with 4x the samples
    // it should be clearly below the coarse one.
    let mut scene = Scene::new();
    scene.add(big_ground_sphere());
    let cam = spec_camera(9, 9);
    let trials: usize = 60;
    let mut rng = rng_from_seed(2024);
    let std_of = |n: usize, rng: &mut rand::rngs::StdRng| -> f64 {
        let mut xs: Vec<f64> = Vec::new();
        for _ in 0..trials {
            let c = sample_pixel(&scene, &cam, 4, 1, n, 5, rng);
            xs.push(c.g() as f64);
        }
        let mean: f64 = xs.iter().sum::<f64>() / trials as f64;
        let var: f64 = xs.iter().map(|x| (x - mean) * (x - mean)).sum::<f64>() / trials as f64;
        var.sqrt()
    };
    let coarse = std_of(8, &mut rng);
    let fine = std_of(32, &mut rng);
    assert!(coarse > 0.0);
    assert!(fine < 0.75 * coarse, "std {} -> {} did not shrink", coarse, fine);
}

#[test]
fn ppm_round_trip_preserves_the_buffer() {
    let mut img = Image::create(2, 2);
    img.set_pixel(0, 0, v(0, S, 70161));
    img.set_pixel(1, 0, v(-5, 12345, 54321));
    img.set_pixel(0, 1, v(257, 258, 65535));
    img.set_pixel(1, 1, v(1, 99999, -99999));
    let bytes = img.to_ppm();
    let back = Image::from_ppm(&bytes).expect("canonical file must parse");
    assert_eq!(back.width, 2);
    assert_eq!(back.height, 2);
    // Re-encoding the parsed buffer reproduces the file byte for byte.
    assert_eq!(back.to_ppm(), bytes);
    // Each channel is within one quantization step of the clamped
    // original.
    for y in 0..2 {
        for x in 0..2 {
            let o = img.get_pixel(x, y);
            let b = back.get_pixel(x, y);
            for (oc, bc) in [(o.r(), b.r()), (o.g(), b.g()), (o.b(), b.b())] {
                let clamped = oc.clamp(0, S);
                assert!((bc - clamped).abs() < 257, "{} vs {}", bc, clamped);
                assert_eq!(bc % 257, 0);
            }
        }
    }
}

#[test]
fn ppm_parser_rejects_garbage() {
    assert!(Image::from_ppm(&b"not a pixmap".to_vec()).is_none());
    assert!(Image::from_ppm(&b"P6 2 2 255\n".to_vec()).is_none());
    assert!(Image::from_ppm(&Vec::new()).is_none());
}

#[test]
fn bmp_layout_is_padded_bottom_up_bgr() {
    // 3x2 pixels: raw row is 9 bytes, padded stride 12.
    let mut img = Image::create(3, 2);
    img.set_pixel(0, 0, v(S, 0, 0));
    img.set_pixel(1, 0, v(0, S, 0));
    img.set_pixel(2, 0, v(0, 0, S));
    img.set_pixel(0, 1, v(S, S, 0));
    img.set_pixel(1, 1, v(0, 0, 0));
    img.set_pixel(2, 1, v(S, S, S));
    let bytes = img.to_bmp();
    let stride: usize = 12;
    assert_eq!(stride % 4, 0);
    assert_eq!(bytes.len(), 54 + 2 * stride);
    // Magic and little-endian size field equal to the actual length.
    assert_eq!(&bytes[0..2], b"BM");
    assert_eq!(&bytes[2..6], &[78, 0, 0, 0]);
    assert_eq!(&bytes[10..14], &[54, 0, 0, 0]);
    // Info header: size 40, width 3, height 2, planes 1, 24 bpp.
    assert_eq!(&bytes[14..18], &[40, 0, 0, 0]);
    assert_eq!(&bytes[18..22], &[3, 0, 0, 0]);
    assert_eq!(&bytes[22..26], &[2, 0, 0, 0]);
    assert_eq!(&bytes[26..28], &[1, 0]);
    assert_eq!(&bytes[28..30], &[24, 0]);
    // Bottom row (y = 1) first, as B, G, R.
    assert_eq!(&bytes[54..63], &[0, 255, 255, 0, 0, 0, 255, 255, 255]);
    assert_eq!(&bytes[63..66], &[0, 0, 0]);
    // Top row (y = 0) second.
    assert_eq!(&bytes[66..75], &[0, 0, 255, 0, 255, 0, 255, 0, 0]);
    assert_eq!(&bytes[75..78], &[0, 0, 0]);
}

#[test]
fn encode_named_selects_by_extension() {
    let img = Image::create(2, 2);
    let ppm = img.encode_named(&b"out.ppm".to_vec()).expect("ppm name accepted");
    assert_eq!(ppm, img.to_ppm());
    let bmp = img.encode_named(&b"render.bmp".to_vec()).expect("bmp name accepted");
    assert_eq!(bmp, img.to_bmp());
    let err = img.encode_named(&b"image.png".to_vec()).unwrap_err();
    assert_eq!(err, SaveError::UnknownFiletype);
    assert_eq!(err.message(), "Unknown filetype");
}
