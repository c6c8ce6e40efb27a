use raytracer::camera::Camera;
use raytracer::fp::{fp_div, fp_mul, fp_sqrt, FP_ONE};
use raytracer::ray::Ray;
use raytracer::rng::rng_range;
use raytracer::utils::degrees_to_radians;
use raytracer::vec::{Rgb8, Vec3};

const ONE: i128 = 1_000_000;

#[test]
fn fixed_point_arithmetic_is_exact() {
    assert_eq!(fp_mul(500_000, 700_000), 350_000);
    assert_eq!(fp_mul(-500_000, 700_000), -350_000);
    assert_eq!(fp_mul(3, 3), 0); // products below one unit truncate to zero
    assert_eq!(fp_div(ONE, 2 * ONE), 500_000);
    assert_eq!(fp_div(-ONE, 3 * ONE), -333_333);
    assert_eq!(fp_sqrt(250_000), 500_000);
    assert_eq!(fp_sqrt(ONE), ONE);
    assert_eq!(fp_sqrt(0), 0);
    assert_eq!(fp_sqrt(2 * ONE), 1_414_213);
}

#[test]
fn vector_operations_componentwise() {
    let a = Vec3 { x: ONE, y: 2 * ONE, z: -ONE };
    let b = Vec3 { x: 500_000, y: -ONE, z: 250_000 };
    assert_eq!(a.add(b), Vec3 { x: 1_500_000, y: ONE, z: -750_000 });
    assert_eq!(a.sub(b), Vec3 { x: 500_000, y: 3 * ONE, z: -1_250_000 });
    assert_eq!(a.mul(b), Vec3 { x: 500_000, y: -2 * ONE, z: -250_000 });
    assert_eq!(a.neg(), Vec3 { x: -ONE, y: -2 * ONE, z: ONE });
    assert_eq!(a.scale(500_000), Vec3 { x: 500_000, y: ONE, z: -500_000 });
    assert_eq!(a.div(2 * ONE), Vec3 { x: 500_000, y: ONE, z: -500_000 });
    assert_eq!(a.dot(b), 500_000 - 2 * ONE - 250_000);
    assert_eq!(a.x(), ONE);
    assert_eq!(a.y(), 2 * ONE);
    assert_eq!(a.z(), -ONE);
    let x = Vec3 { x: ONE, y: 0, z: 0 };
    let y = Vec3 { x: 0, y: ONE, z: 0 };
    assert_eq!(x.cross(y), Vec3 { x: 0, y: 0, z: ONE });
    assert_eq!(y.cross(x), Vec3 { x: 0, y: 0, z: -ONE });
}

#[test]
fn length_and_unit_vector() {
    let v = Vec3 { x: 3 * ONE, y: 4 * ONE, z: 0 };
    assert_eq!(v.length_squared(), 25 * ONE);
    assert_eq!(v.length(), 5 * ONE);
    assert_eq!(v.to_unit_vector(), Vec3 { x: 600_000, y: 800_000, z: 0 });
}

#[test]
fn near_zero_only_for_the_zero_vector() {
    assert!(Vec3 { x: 0, y: 0, z: 0 }.near_zero());
    assert!(!Vec3 { x: 1, y: 0, z: 0 }.near_zero());
    assert!(!Vec3 { x: 0, y: -1, z: 0 }.near_zero());
}

#[test]
fn reflect_mirrors_about_the_normal() {
    let v = Vec3 { x: ONE, y: -ONE, z: 0 };
    let n = Vec3 { x: 0, y: ONE, z: 0 };
    assert_eq!(Vec3::reflect(&v, &n), Vec3 { x: ONE, y: ONE, z: 0 });
}

#[test]
fn refract_straight_through_matched_media() {
    let uv = Vec3 { x: 0, y: 0, z: -ONE };
    let n = Vec3 { x: 0, y: 0, z: ONE };
    assert_eq!(Vec3::refract(&uv, &n, ONE), uv);
    assert_eq!(Vec3::other_refract(uv, n, ONE), uv);
}

#[test]
fn refract_bends_toward_the_surface_entering_glass() {
    // Entering ir = 1.5 glass at 45 degrees: the refracted direction is
    // closer to the normal than the incoming one.
    let uv = Vec3 { x: 707_106, y: -707_106, z: 0 };
    let n = Vec3 { x: 0, y: ONE, z: 0 };
    let r = Vec3::refract(&uv, &n, 666_666);
    assert!(r.x.abs() < uv.x.abs());
    assert!(r.y < 0);
}

#[test]
fn to_u8_clamps_and_scales() {
    let v = Vec3 { x: 250_000, y: -500_000, z: 1_500_000 };
    assert_eq!(v.to_u8(), [63, 0, 255]);
    assert_eq!(Vec3 { x: 0, y: 0, z: 0 }.to_u8(), [0, 0, 0]);
    assert_eq!(Vec3 { x: ONE, y: ONE, z: ONE }.to_u8(), [255, 255, 255]);
    let rgb = v.to_rgb();
    assert_eq!(rgb, Rgb8 { r: 63, g: 0, b: 255 });
}

#[test]
fn to_rgb_sampled_averages_and_gamma_corrects() {
    let accumulated = Vec3 { x: ONE, y: 0, z: 16 * ONE };
    let rgb = accumulated.to_rgb_sampled(4);
    assert_eq!(rgb, Rgb8 { r: 128, g: 0, b: 255 });
    // One sample of mid gray: sqrt(0.25) = 0.5 -> 128.
    let gray = Vec3 { x: 250_000, y: 250_000, z: 250_000 };
    assert_eq!(gray.to_rgb_sampled(1), Rgb8 { r: 128, g: 128, b: 128 });
}

#[test]
fn degrees_to_radians_quarter_turn() {
    assert_eq!(degrees_to_radians(90 * ONE), 1_570_796);
    assert_eq!(degrees_to_radians(180 * ONE), 3_141_593);
    assert_eq!(degrees_to_radians(0), 0);
}

#[test]
fn camera_center_ray_points_at_the_target() {
    // A square 90-degree camera at the origin looking down -z: the ray
    // through the image center goes straight along -z.
    let camera = Camera::new(
        Vec3 { x: 0, y: 0, z: 0 },
        Vec3 { x: 0, y: 0, z: -ONE },
        Vec3 { x: 0, y: ONE, z: 0 },
        ONE,
        ONE,
    );
    let ray = camera.get_ray(500_000, 500_000);
    assert_eq!(ray.origin, Vec3 { x: 0, y: 0, z: 0 });
    assert_eq!(ray.direction, Vec3 { x: 0, y: 0, z: -ONE });
    // The lower-left corner ray leans left and down.
    let corner = camera.get_ray(0, 0);
    assert_eq!(corner.direction, Vec3 { x: -ONE, y: -ONE, z: -ONE });
}

#[test]
fn showcase_ray_color_shades_the_sphere_and_sky() {
    // Straight at the showcase sphere: half the shifted unit normal.
    let hit_ray = Ray::new(Vec3 { x: 0, y: 0, z: 0 }, Vec3 { x: 0, y: 0, z: -ONE });
    assert_eq!(hit_ray.ray_color(), Vec3 { x: 500_000, y: 500_000, z: ONE });
    // A horizontal ray misses and shows the 50/50 gradient blend.
    let miss_ray = Ray::new(Vec3 { x: 0, y: 0, z: 0 }, Vec3 { x: ONE, y: 0, z: 0 });
    assert_eq!(miss_ray.ray_color(), Vec3 { x: 750_000, y: 850_000, z: ONE });
}

#[test]
fn random_draws_vary() {
    // A hundred draws from a wide range collapse to one value only if the
    // generator is broken.
    let first = rng_range(0, 1_000_000_000);
    let mut saw_a_different_one = false;
    for _ in 0..100 {
        if rng_range(0, 1_000_000_000) != first {
            saw_a_different_one = true;
        }
    }
    assert!(saw_a_different_one);
}

#[test]
fn random_draws_stay_in_their_ranges() {
    for _ in 0..100 {
        let d = rng_range(-5, 7);
        assert!(-5 <= d && d < 7);
        let c = Vec3::random_color();
        assert!(0 <= c.x && c.x < ONE);
        assert!(0 <= c.y && c.y < ONE);
        assert!(0 <= c.z && c.z < ONE);
        let r = Vec3::random_color_in_range(500_000, 600_000);
        assert!(500_000 <= r.x && r.x < 600_000);
        let p = Vec3::random_in_unit_sphere();
        let ls = p.length_squared();
        assert!(0 < ls && ls < ONE);
        let d = Vec3::random_in_unit_disk();
        assert_eq!(d.z, 0);
        assert!(d.length_squared() < ONE);
        let u = Vec3::random_unit_vector();
        // The normalized sample has squared length one, within a few dozen
        // units of the fixed-point grid.
        let ls = u.length_squared();
        assert!(ONE - 20 <= ls && ls <= ONE + 25);
        let n = Vec3 { x: 0, y: ONE, z: 0 };
        let h = Vec3::random_in_hemisphere(&n);
        assert!(h.dot(n) >= 0);
    }
}
