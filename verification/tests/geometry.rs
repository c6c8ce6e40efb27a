use raytracer::hit::{Hit, Hittable, HittableList, Sphere};
use raytracer::materials::{Lambertian, Material};
use raytracer::ray::Ray;
use raytracer::vec::Vec3;

const ONE: i128 = 1_000_000;
const T_MIN: i128 = 1_000;
const T_MAX: i128 = 10_000_000_000;

fn gray_material() -> Material {
    Material::Lambertian(Lambertian::new(Vec3 { x: 500_000, y: 500_000, z: 500_000 }))
}

fn unit_sphere_at(x: i128, y: i128, z: i128, radius: i128) -> Sphere {
    Sphere { center: Vec3 { x, y, z }, radius, material: gray_material() }
}

#[test]
fn sphere_intersection_analytic() {
    // A ray from the origin straight at a sphere of radius 0.5 centered at
    // (0, 0, -1) meets it at t = 0.5, point (0, 0, -0.5), normal (0, 0, 1).
    let sphere = unit_sphere_at(0, 0, -ONE, 500_000);
    let ray = Ray::new(Vec3 { x: 0, y: 0, z: 0 }, Vec3 { x: 0, y: 0, z: -ONE });
    let hit = sphere.hit(T_MIN, T_MAX, &ray).expect("must hit");
    assert_eq!(hit.t, 500_000);
    assert_eq!(hit.p, Vec3 { x: 0, y: 0, z: -500_000 });
    assert_eq!(hit.normal, Some(Vec3 { x: 0, y: 0, z: ONE }));
    assert_eq!(hit.front_face, Some(true));
    // The normal is unit length and points outward on a front face.
    let normal = hit.normal.unwrap();
    assert_eq!(normal.length(), ONE);
    let outward_side = normal.dot(hit.p.sub(Vec3 { x: 0, y: 0, z: -ONE }));
    assert!(outward_side > 0);
}

#[test]
fn no_false_hits_when_passing_wide() {
    // Closest approach 2.0 exceeds the radius 0.5: no hit.
    let sphere = unit_sphere_at(0, 0, -ONE, 500_000);
    let ray = Ray::new(Vec3 { x: 0, y: 2 * ONE, z: 0 }, Vec3 { x: 0, y: 0, z: -ONE });
    assert!(sphere.hit(T_MIN, T_MAX, &ray).is_none());
}

#[test]
fn no_hit_behind_the_ray() {
    let sphere = unit_sphere_at(0, 0, 2 * ONE, 500_000);
    let ray = Ray::new(Vec3 { x: 0, y: 0, z: 0 }, Vec3 { x: 0, y: 0, z: -ONE });
    assert!(sphere.hit(T_MIN, T_MAX, &ray).is_none());
}

#[test]
fn front_face_from_outside_and_inside() {
    let sphere = unit_sphere_at(0, 0, -ONE, 500_000);
    // From outside: front face, normal against the ray.
    let outside = Ray::new(Vec3 { x: 0, y: 0, z: 0 }, Vec3 { x: 0, y: 0, z: -ONE });
    let hit = sphere.hit(T_MIN, T_MAX, &outside).expect("must hit");
    assert_eq!(hit.front_face, Some(true));
    assert!(hit.normal.unwrap().dot(outside.direction) < 0);
    // From the center: back face, the outward normal is flipped.
    let inside = Ray::new(Vec3 { x: 0, y: 0, z: -ONE }, Vec3 { x: 0, y: 0, z: -ONE });
    let hit = sphere.hit(T_MIN, T_MAX, &inside).expect("must hit");
    assert_eq!(hit.t, 500_000);
    assert_eq!(hit.front_face, Some(false));
    assert_eq!(hit.normal, Some(Vec3 { x: 0, y: 0, z: ONE }));
}

#[test]
fn set_face_normal_orients_against_the_ray() {
    let ray = Ray::new(Vec3 { x: 0, y: 0, z: 0 }, Vec3 { x: 0, y: 0, z: -ONE });
    let mut hit = Hit::new(ONE, Vec3 { x: 0, y: 0, z: -ONE });
    hit.set_face_normal(&ray, Vec3 { x: 0, y: 0, z: -ONE });
    assert_eq!(hit.front_face, Some(false));
    assert_eq!(hit.normal, Some(Vec3 { x: 0, y: 0, z: ONE }));
    hit.set_face_normal(&ray, Vec3 { x: 0, y: 0, z: ONE });
    assert_eq!(hit.front_face, Some(true));
    assert_eq!(hit.normal, Some(Vec3 { x: 0, y: 0, z: ONE }));
}

#[test]
fn list_returns_closest_hit_regardless_of_order() {
    // Two spheres along one ray; the closer one is hit at t = 1.5.
    let near = unit_sphere_at(0, 0, -2 * ONE, 500_000);
    let far = unit_sphere_at(0, 0, -4 * ONE, 500_000);
    let ray = Ray::new(Vec3 { x: 0, y: 0, z: 0 }, Vec3 { x: 0, y: 0, z: -ONE });

    let mut world = HittableList::new();
    world.add(near);
    world.add(far);
    let hit = world.hit(T_MIN, T_MAX, &ray).expect("must hit");
    assert_eq!(hit.t, 1_500_000);

    let mut reversed = HittableList::new();
    reversed.add(far);
    reversed.add(near);
    let hit = reversed.hit(T_MIN, T_MAX, &ray).expect("must hit");
    assert_eq!(hit.t, 1_500_000);
}

#[test]
fn list_new_add_clear() {
    let mut world = HittableList::new();
    assert_eq!(world.objects.len(), 0);
    world.add(unit_sphere_at(0, 0, -2 * ONE, 500_000));
    assert_eq!(world.objects.len(), 1);
    world.clear();
    assert_eq!(world.objects.len(), 0);
    let ray = Ray::new(Vec3 { x: 0, y: 0, z: 0 }, Vec3 { x: 0, y: 0, z: -ONE });
    assert!(world.hit(T_MIN, T_MAX, &ray).is_none());
}

#[test]
fn hit_respects_the_interval() {
    let sphere = unit_sphere_at(0, 0, -2 * ONE, 500_000);
    let ray = Ray::new(Vec3 { x: 0, y: 0, z: 0 }, Vec3 { x: 0, y: 0, z: -ONE });
    // The near root 1.5 is cut off; the far root 2.5 is taken instead.
    let hit = sphere.hit(2 * ONE, T_MAX, &ray).expect("must hit");
    assert_eq!(hit.t, 2_500_000);
    // Both roots cut off: no hit.
    assert!(sphere.hit(3 * ONE, T_MAX, &ray).is_none());
    assert!(sphere.hit(T_MIN, ONE, &ray).is_none());
}

#[test]
fn ray_at_walks_the_ray() {
    let ray = Ray::new(Vec3 { x: ONE, y: 0, z: 0 }, Vec3 { x: 0, y: 2 * ONE, z: -ONE });
    assert_eq!(ray.at(500_000), Vec3 { x: ONE, y: ONE, z: -500_000 });
    assert_eq!(ray.at(0), Vec3 { x: ONE, y: 0, z: 0 });
}

#[test]
fn hit_sphere_full_b_form() {
    let ray = Ray::new(Vec3 { x: 0, y: 0, z: 0 }, Vec3 { x: 0, y: 0, z: -ONE });
    assert_eq!(ray.hit_sphere(Vec3 { x: 0, y: 0, z: -ONE }, 500_000), 500_000);
    let miss = Ray::new(Vec3 { x: 0, y: 0, z: 0 }, Vec3 { x: ONE, y: 0, z: 0 });
    assert_eq!(miss.hit_sphere(Vec3 { x: 0, y: 0, z: -ONE }, 500_000), -ONE);
}
