use raytracer::hit::{Hit, Hittable, HittableList, Sphere};
use raytracer::materials::{Dielectric, Lambertian, Material, Metal};
use raytracer::ray::Ray;
use raytracer::render::{random_scene, ray_color};
use raytracer::vec::Vec3;

const ONE: i128 = 1_000_000;
const T_MIN: i128 = 1_000;
const T_MAX: i128 = 10_000_000_000;

fn head_on_front_hit() -> Hit {
    Hit {
        t: 500_000,
        p: Vec3 { x: 0, y: 0, z: -500_000 },
        normal: Some(Vec3 { x: 0, y: 0, z: ONE }),
        front_face: Some(true),
        material: None,
    }
}

fn head_on_back_hit() -> Hit {
    Hit {
        t: 500_000,
        p: Vec3 { x: 0, y: 0, z: -1_500_000 },
        normal: Some(Vec3 { x: 0, y: 0, z: ONE }),
        front_face: Some(false),
        material: None,
    }
}

#[test]
fn lambertian_scatter_keeps_albedo_and_origin() {
    let albedo = Vec3 { x: 400_000, y: 200_000, z: 100_000 };
    let material = Lambertian::new(albedo);
    let rec = head_on_front_hit();
    let ray = Ray::new(Vec3 { x: 0, y: 0, z: 0 }, Vec3 { x: 0, y: 0, z: -ONE });
    let scatter = material.scatter(&ray, &rec).expect("diffuse always scatters");
    assert_eq!(scatter.attenuation, albedo);
    assert_eq!(scatter.ray.origin, rec.p);
}

#[test]
fn lambertian_near_zero_falls_back_to_the_normal() {
    let material = Lambertian::new(Vec3 { x: 500_000, y: 500_000, z: 500_000 });
    let rec = head_on_front_hit();
    // A sample exactly opposite the normal cancels it; the bounce then
    // leaves along the normal itself.
    let scatter = material.scatter_with(&rec, Vec3 { x: 0, y: 0, z: -ONE });
    assert_eq!(scatter.ray.direction, Vec3 { x: 0, y: 0, z: ONE });
    // An ordinary sample adds to the normal.
    let scatter = material.scatter_with(&rec, Vec3 { x: ONE, y: 0, z: 0 });
    assert_eq!(scatter.ray.direction, Vec3 { x: ONE, y: 0, z: ONE });
}

#[test]
fn metal_reflects_exactly_without_fuzz() {
    let albedo = Vec3 { x: 700_000, y: 600_000, z: 500_000 };
    let material = Metal::new(albedo, 0);
    let rec = head_on_front_hit();
    let ray = Ray::new(Vec3 { x: 0, y: 0, z: 0 }, Vec3 { x: 0, y: 0, z: -ONE });
    let scatter = material.scatter(&ray, &rec).expect("head-on reflection leaves the surface");
    assert_eq!(scatter.attenuation, albedo);
    assert_eq!(scatter.ray.origin, rec.p);
    assert_eq!(scatter.ray.direction, Vec3 { x: 0, y: 0, z: ONE });
}

#[test]
fn metal_absorbs_a_bounce_into_the_surface() {
    let material = Metal::new(Vec3 { x: 700_000, y: 600_000, z: 500_000 }, ONE);
    let rec = head_on_front_hit();
    let ray = Ray::new(Vec3 { x: 0, y: 0, z: 0 }, Vec3 { x: 0, y: 0, z: -ONE });
    // With full fuzz, a sample opposite the reflection cancels it; the
    // degenerate bounce does not leave the surface and is absorbed.
    let res = material.scatter_with(&ray, &rec, Vec3 { x: 0, y: 0, z: -ONE });
    assert!(res.is_none());
}

#[test]
fn metal_new_clamps_fuzz() {
    assert_eq!(Metal::new(Vec3 { x: 0, y: 0, z: 0 }, 3 * ONE).fuzz, ONE);
    assert_eq!(Metal::new(Vec3 { x: 0, y: 0, z: 0 }, -ONE).fuzz, 0);
    assert_eq!(Metal::new(Vec3 { x: 0, y: 0, z: 0 }, 300_000).fuzz, 300_000);
}

#[test]
fn dielectric_matched_media_entry_goes_straight() {
    // Matched media (ir = 1): the refracted continuation equals the
    // incoming unit direction, entering the surface head on.
    let material = Dielectric::new(ONE);
    let rec = head_on_front_hit();
    let ray = Ray::new(Vec3 { x: 0, y: 0, z: 0 }, Vec3 { x: 0, y: 0, z: -ONE });
    let scatter = material.scatter_with(&ray, &rec, 500_000);
    assert_eq!(scatter.attenuation, Vec3 { x: ONE, y: ONE, z: ONE });
    assert_eq!(scatter.ray.direction, Vec3 { x: 0, y: 0, z: -ONE });
}

#[test]
fn dielectric_matched_media_exit_goes_straight() {
    // The same, leaving the surface (back face).
    let material = Dielectric::new(ONE);
    let rec = head_on_back_hit();
    let ray = Ray::new(Vec3 { x: 0, y: 0, z: -ONE }, Vec3 { x: 0, y: 0, z: -ONE });
    let scatter = material.scatter_with(&ray, &rec, 500_000);
    assert_eq!(scatter.ray.direction, Vec3 { x: 0, y: 0, z: -ONE });
}

#[test]
fn dielectric_schlick_draw_picks_reflection_or_refraction() {
    // Glass with ir = 1.5 hit head on has reflectance 0.04 exactly in this
    // arithmetic: a draw just below it reflects, a draw at it refracts.
    let material = Dielectric::new(1_500_000);
    let rec = head_on_front_hit();
    let ray = Ray::new(Vec3 { x: 0, y: 0, z: 0 }, Vec3 { x: 0, y: 0, z: -ONE });
    let reflected = material.scatter_with(&ray, &rec, 39_999);
    assert_eq!(reflected.ray.direction, Vec3 { x: 0, y: 0, z: ONE });
    let refracted = material.scatter_with(&ray, &rec, 40_000);
    assert_eq!(refracted.ray.direction, Vec3 { x: 0, y: 0, z: -ONE });
}

#[test]
fn dielectric_total_internal_reflection() {
    // Leaving glass at a grazing angle: refraction is impossible, so the
    // ray must reflect whatever the draw says.
    let material = Dielectric::new(1_500_000);
    let rec = Hit {
        t: ONE,
        p: Vec3 { x: 0, y: 0, z: 0 },
        normal: Some(Vec3 { x: 0, y: ONE, z: 0 }),
        front_face: Some(false),
        material: None,
    };
    let ray = Ray::new(
        Vec3 { x: -ONE, y: 100_000, z: 0 },
        Vec3 { x: ONE, y: -100_000, z: 0 },
    );
    let scatter = material.scatter_with(&ray, &rec, 999_999);
    assert_eq!(scatter.ray.direction, Vec3 { x: 995_037, y: 99_503, z: 0 });
}

#[test]
fn integrator_budget_zero_returns_black() {
    let world = random_scene();
    let ray = Ray::new(Vec3 { x: 0, y: 0, z: 0 }, Vec3 { x: 0, y: 0, z: -ONE });
    assert_eq!(ray_color(&ray, &world, 0), Vec3 { x: 0, y: 0, z: 0 });
}

#[test]
fn integrator_miss_shows_the_gradient() {
    // A horizontal ray that misses everything blends white and sky blue
    // half and half: (0.75, 0.85, 1.0).
    let world = HittableList::new();
    let ray = Ray::new(Vec3 { x: 0, y: 0, z: 0 }, Vec3 { x: ONE, y: 0, z: 0 });
    let color = ray_color(&ray, &world, 10);
    assert_eq!(color, Vec3 { x: 750_000, y: 850_000, z: ONE });
}

#[test]
fn integrator_energy_stays_bounded() {
    let mut world = HittableList::new();
    world.add(Sphere {
        center: Vec3 { x: 0, y: 0, z: -ONE },
        radius: 500_000,
        material: Material::Lambertian(
            Lambertian::new(Vec3 { x: 900_000, y: 900_000, z: 900_000 }),
        ),
    });
    world.add(Sphere {
        center: Vec3 { x: 0, y: -1_000_000_000, z: 0 },
        radius: 1_000_000_000 - ONE,
        material: Material::Metal(
            Metal::new(Vec3 { x: ONE, y: ONE, z: ONE }, 200_000),
        ),
    });
    for depth in [1usize, 2, 5, 20] {
        let ray = Ray::new(Vec3 { x: 0, y: 0, z: 0 }, Vec3 { x: 0, y: 0, z: -ONE });
        let c = ray_color(&ray, &world, depth);
        assert!(0 <= c.x && c.x <= ONE);
        assert!(0 <= c.y && c.y <= ONE);
        assert!(0 <= c.z && c.z <= ONE);
    }
}

#[test]
fn integrator_absorbed_bounce_is_black() {
    // A metal surface absorbing the bounce ends the path with no light.
    let mut world = HittableList::new();
    world.add(Sphere {
        center: Vec3 { x: 0, y: 0, z: -ONE },
        radius: 500_000,
        material: Material::Metal(Metal::new(Vec3 { x: ONE, y: ONE, z: ONE }, 0)),
    });
    let ray = Ray::new(Vec3 { x: 0, y: 0, z: 0 }, Vec3 { x: 0, y: 0, z: -ONE });
    // The head-on mirror bounce goes straight back out to the sky, so the
    // color is the sky through a white filter after one bounce.
    let c = ray_color(&ray, &world, 3);
    assert!(0 <= c.x && c.x <= ONE);
    assert!(c.z <= ONE);
}

#[test]
fn metal_zero_fuzz_is_deterministic() {
    // Without fuzz the draw does not matter: repeated calls agree and the
    // reflection is always scattered when it leaves the surface.
    let material = Metal::new(Vec3 { x: 700_000, y: 600_000, z: 500_000 }, 0);
    let rec = head_on_front_hit();
    let ray = Ray::new(Vec3 { x: 0, y: 0, z: 0 }, Vec3 { x: 0, y: 0, z: -ONE });
    let first = material.scatter(&ray, &rec).expect("zero fuzz must scatter here");
    let second = material.scatter(&ray, &rec).expect("zero fuzz must scatter here");
    assert_eq!(first.ray.direction, second.ray.direction);
    assert_eq!(first.ray.origin, second.ray.origin);
    assert_eq!(first.attenuation, second.attenuation);
}

#[test]
fn random_scene_layout() {
    let world = random_scene();
    let n = world.objects.len();
    assert!(4 <= n && n <= 488);
    // The ground sphere comes first.
    let ground = &world.objects[0];
    assert_eq!(ground.center, Vec3 { x: 0, y: -1_000_000_000, z: 0 });
    assert_eq!(ground.radius, 1_000_000_000);
    match &ground.material {
        Material::Lambertian(l) => {
            assert_eq!(l.albedo, Vec3 { x: 500_000, y: 500_000, z: 500_000 })
        },
        other => panic!("ground must be diffuse, got {:?}", other),
    }
    // The three feature spheres come last.
    let glass = &world.objects[n - 3];
    assert_eq!(glass.center, Vec3 { x: 0, y: ONE, z: 0 });
    assert_eq!(glass.radius, ONE);
    assert!(matches!(&glass.material, Material::Dielectric(d) if d.ir == 1_500_000));
    let matte = &world.objects[n - 2];
    assert_eq!(matte.center, Vec3 { x: -4 * ONE, y: ONE, z: 0 });
    assert!(matches!(
        &matte.material,
        Material::Lambertian(l) if l.albedo == Vec3 { x: 400_000, y: 200_000, z: 100_000 }
    ));
    let mirror = &world.objects[n - 1];
    assert_eq!(mirror.center, Vec3 { x: 4 * ONE, y: ONE, z: 0 });
    assert!(matches!(
        &mirror.material,
        Material::Metal(m) if m.albedo == Vec3 { x: 700_000, y: 600_000, z: 500_000 } && m.fuzz == 0
    ));
    // Everything in between is a small grid sphere clear of the mirror.
    for sphere in &world.objects[1..n - 3] {
        assert_eq!(sphere.radius, 200_000);
        assert_eq!(sphere.center.y, 200_000);
        assert!(-11 * ONE <= sphere.center.x && sphere.center.x < 11 * ONE);
        assert!(-11 * ONE <= sphere.center.z && sphere.center.z < 11 * ONE);
        let offset = sphere.center.sub(Vec3 { x: 4 * ONE, y: 200_000, z: 0 });
        assert!(offset.length() > 900_000);
        match &sphere.material {
            Material::Lambertian(l) => {
                assert!(0 <= l.albedo.x && l.albedo.x < ONE);
                assert!(0 <= l.albedo.y && l.albedo.y < ONE);
                assert!(0 <= l.albedo.z && l.albedo.z < ONE);
            },
            Material::Metal(m) => {
                assert!(500_000 <= m.albedo.x && m.albedo.x < ONE);
                assert!(0 <= m.fuzz && m.fuzz < 500_000);
            },
            Material::Dielectric(d) => assert_eq!(d.ir, 1_500_000),
        }
    }
}

#[test]
fn random_scene_is_renderable() {
    let world = random_scene();
    // The ground and the three feature spheres are always present.
    assert!(world.objects.len() >= 4);
    let ray = Ray::new(
        Vec3 { x: 13_000_000, y: 2_000_000, z: 3_000_000 },
        Vec3 { x: -ONE, y: -100_000, z: -200_000 },
    );
    let c = ray_color(&ray, &world, 8);
    assert!(0 <= c.x && c.x <= ONE);
    assert!(0 <= c.y && c.y <= ONE);
    assert!(0 <= c.z && c.z <= ONE);
}
