//! The recursive path-tracing estimator and the scene builder.

use vstd::prelude::*;
use crate::fp::{lemma_fmul_unit_range, FP_ONE};
use crate::fp::fmul;
use crate::hit::{list_hit_spec, list_wf, ray_wf, Hittable, HittableList, Sphere, SphereV, T_LIM};
use crate::materials::{
    scatter_possible, Dielectric, Lambertian, MatV, Material, Metal, ScatterV,
};
use crate::ray::{sky_color, sky_of_ray, Ray, RayV};
use crate::rng::rng_range;
use crate::vec::{lemma_vls_nonneg, vlen, vls, vmul, vsub, vzero, V3, Vec3};

verus! {

/// Lower end of every intersection interval the integrator issues, biased
/// above zero to suppress self-intersection from rounding.
pub const T_MIN: i128 = 1_000;

/// `c` is a possible radiance of a ray at the given bounce budget: black
/// when the budget is out or the direction degenerate, the sky on a miss,
/// and on a hit either black for a possible absorption, or a possible
/// scatter's attenuation filtering a possible radiance of its bounce.
pub open spec fn ray_color_possible(objs: Seq<crate::hit::SphereV>, r: RayV, depth: nat, c: V3) -> bool
    decreases depth,
{
    if depth == 0 {
        c == vzero()
    } else if vls(r.direction) == 0 {
        c == vzero()
    } else {
        match list_hit_spec(objs, T_MIN as int, T_LIM as int, r) {
            None => c == sky_of_ray(r),
            Some(h) => {
                let m = h.material->Some_0;
                ||| exists|sc: ScatterV, sub: V3|
                    #![trigger vmul(sc.attenuation, sub)]
                    {
                        &&& scatter_possible(m, r, h, Some(sc))
                        &&& ray_color_possible(objs, sc.ray, (depth - 1) as nat, sub)
                        &&& c == vmul(sc.attenuation, sub)
                    }
                ||| (c == vzero() && scatter_possible(m, r, h, None::<ScatterV>))
            },
        }
    }
}

/// Radiance carried back along a ray: black once the bounce budget is
/// exhausted, the sky on a miss, and the scattered bounce filtered by the
/// material's attenuation on a hit.  Whatever the material's random
/// choices, every channel of the result stays within [0, 1] -- no bounce
/// amplifies energy.
pub fn ray_color(ray: &Ray, world: &HittableList, depth: usize) -> (color: Vec3)
    requires
        list_wf(world@),
        ray_wf(ray@),
    ensures
        0 <= color@.x <= FP_ONE as int,
        0 <= color@.y <= FP_ONE as int,
        0 <= color@.z <= FP_ONE as int,
        depth == 0 ==> color@ == vzero(),
        depth > 0 && vls(ray@.direction) >= 1 && list_hit_spec(
            world@,
            T_MIN as int,
            T_LIM as int,
            ray@,
        ) is None ==> color@ == sky_of_ray(ray@),
        ray_color_possible(world@, ray@, depth as nat, color@),
    decreases depth,
{
    // No bounce budget left: no more light is gathered.
    if depth == 0 {
        return Vec3 { x: 0, y: 0, z: 0 };
    }
    proof {
        lemma_vls_nonneg(ray@.direction);
    }
    // A degenerate direction meets nothing and cannot be normalized for
    // the sky blend; it gathers nothing.
    let dls = ray.direction.length_squared();
    if dls == 0 {
        return Vec3 { x: 0, y: 0, z: 0 };
    }
    match world.hit(T_MIN, T_LIM, ray) {
        Some(rec) => {
            proof {
                crate::hit::lemma_list_hit_ready(world@, T_MIN as int, T_LIM as int, ray@);
            }
            let material = rec.material.unwrap();
            match material.scatter(ray, &rec) {
                Some(scattered) => {
                    let bounce = ray_color(&scattered.ray, world, depth - 1);
                    proof {
                        lemma_fmul_unit_range(scattered@.attenuation.x, bounce@.x);
                        lemma_fmul_unit_range(scattered@.attenuation.y, bounce@.y);
                        lemma_fmul_unit_range(scattered@.attenuation.z, bounce@.z);
                    }
                    let result = scattered.attenuation.mul(bounce);
                    proof {
                        assert(scatter_possible(rec@.material->Some_0, ray@, rec@, Some(
                            scattered@,
                        )));
                        assert(((depth as nat) - 1) as nat == (depth - 1) as nat);
                        assert(ray_color_possible(
                            world@,
                            scattered@.ray,
                            ((depth as nat) - 1) as nat,
                            bounce@,
                        ));
                        assert(scatter_possible(rec@.material->Some_0, ray@, rec@, Some(
                            scattered@,
                        )));
                        assert(result@ == vmul(scattered@.attenuation, bounce@));
                        assert(ray_color_possible(world@, ray@, depth as nat, result@));
                    }
                    result
                },
                None => {
                    let absorbed = Vec3 { x: 0, y: 0, z: 0 };
                    proof {
                        assert(scatter_possible(
                            rec@.material->Some_0,
                            ray@,
                            rec@,
                            None::<ScatterV>,
                        ));
                        assert(ray_color_possible(world@, ray@, depth as nat, absorbed@));
                    }
                    absorbed
                },
            }
        },
        None => {
            let unit_direction = ray.direction.to_unit_vector();
            sky_color(&unit_direction)
        },
    }
}

/// The gray ground sphere the scene always starts with.
pub open spec fn ground_sphere() -> SphereV {
    SphereV {
        center: V3 { x: 0, y: -1_000_000_000, z: 0 },
        radius: 1_000_000_000,
        material: MatV::Lambertian { albedo: V3 { x: 500_000, y: 500_000, z: 500_000 } },
    }
}

/// The three large feature spheres the scene always ends with.
pub open spec fn glass_feature() -> SphereV {
    SphereV {
        center: V3 { x: 0, y: FP_ONE as int, z: 0 },
        radius: FP_ONE as int,
        material: MatV::Dielectric { ir: 1_500_000 },
    }
}

pub open spec fn matte_feature() -> SphereV {
    SphereV {
        center: V3 { x: -4_000_000, y: FP_ONE as int, z: 0 },
        radius: FP_ONE as int,
        material: MatV::Lambertian { albedo: V3 { x: 400_000, y: 200_000, z: 100_000 } },
    }
}

pub open spec fn metal_feature() -> SphereV {
    SphereV {
        center: V3 { x: 4_000_000, y: FP_ONE as int, z: 0 },
        radius: FP_ONE as int,
        material: MatV::Metal { albedo: V3 { x: 700_000, y: 600_000, z: 500_000 }, fuzz: 0 },
    }
}

/// A horizontal coordinate of a small sphere: its grid cell plus 0.9 of a
/// unit draw.
pub open spec fn grid_coord(cell: int, jitter: int) -> int {
    cell * (FP_ONE as int) + fmul(900_000, jitter)
}

/// A material one of the small spheres can draw: a diffuse surface whose
/// albedo is a product of two unit-cube draws, a metal with a bright albedo
/// and mild fuzz, or the fixed glass.
pub open spec fn small_material_ok(m: MatV) -> bool {
    match m {
        MatV::Lambertian { albedo } => exists|u: V3, w: V3|
            {
                &&& 0 <= u.x < FP_ONE as int
                &&& 0 <= u.y < FP_ONE as int
                &&& 0 <= u.z < FP_ONE as int
                &&& 0 <= w.x < FP_ONE as int
                &&& 0 <= w.y < FP_ONE as int
                &&& 0 <= w.z < FP_ONE as int
                &&& albedo == #[trigger] vmul(u, w)
            },
        MatV::Metal { albedo, fuzz } => {
            &&& 500_000 <= albedo.x < FP_ONE as int
            &&& 500_000 <= albedo.y < FP_ONE as int
            &&& 500_000 <= albedo.z < FP_ONE as int
            &&& 0 <= fuzz < 500_000
        },
        MatV::Dielectric { ir } => ir == 1_500_000,
    }
}

/// A small sphere of the scene: radius 0.2, centered at height 0.2 inside
/// its grid cell, clear of the metal feature's spot, with a drawn material.
pub open spec fn small_sphere_ok(s: SphereV) -> bool {
    &&& s.radius == 200_000
    &&& s.center.y == 200_000
    &&& exists|a: int, j: int|
        -11 <= a <= 10 && 0 <= j < FP_ONE as int && s.center.x == #[trigger] grid_coord(a, j)
    &&& exists|b: int, j: int|
        -11 <= b <= 10 && 0 <= j < FP_ONE as int && s.center.z == #[trigger] grid_coord(b, j)
    &&& vlen(vsub(s.center, V3 { x: 4_000_000, y: 200_000, z: 0 })) > 900_000
    &&& small_material_ok(s.material)
}

/// The scene under construction: the ground sphere, then small spheres.
pub open spec fn scene_prefix_ok(objs: Seq<SphereV>) -> bool {
    &&& objs.len() >= 1
    &&& objs[0] == ground_sphere()
    &&& forall|i: int| 1 <= i < objs.len() ==> small_sphere_ok(#[trigger] objs[i])
}

proof fn lemma_scene_prefix_push(objs: Seq<SphereV>, s: SphereV)
    requires
        scene_prefix_ok(objs),
        small_sphere_ok(s),
    ensures
        scene_prefix_ok(objs.push(s)),
{
    assert(objs.push(s)[0] == objs[0]);
    assert forall|i: int| 1 <= i < objs.push(s).len() implies small_sphere_ok(
        #[trigger] objs.push(s)[i],
    ) by {
        if i < objs.len() {
            assert(objs.push(s)[i] == objs[i]);
        } else {
            assert(objs.push(s)[i] == s);
        }
    }
}

/// The showcase scene: a large ground sphere, a grid of small spheres with
/// randomly drawn materials, and three large feature spheres.  Every sphere
/// built is well formed, so the scene is fit for the integrator; the
/// contract also pins the ground sphere first, the three feature spheres
/// last, the shape of every small sphere in between, and the total count.
pub fn random_scene() -> (world: HittableList)
    ensures
        list_wf(world@),
        4 <= world@.len() <= 488,
        world@[0] == ground_sphere(),
        world@[world@.len() - 3] == glass_feature(),
        world@[world@.len() - 2] == matte_feature(),
        world@[world@.len() - 1] == metal_feature(),
        forall|i: int| 1 <= i < world@.len() - 3 ==> small_sphere_ok(#[trigger] world@[i]),
{
    let mut world = HittableList::new();
    let ground_material = Material::Lambertian(
        Lambertian::new(Vec3 { x: 500_000, y: 500_000, z: 500_000 }),
    );
    let ground = Sphere {
        center: Vec3 { x: 0, y: -1_000_000_000, z: 0 },
        radius: 1_000_000_000,
        material: ground_material,
    };
    proof {
        crate::hit::lemma_list_wf_push(world@, ground@);
    }
    world.add(ground);
    proof {
        assert(world@[0] == ground_sphere());
    }

    for a in -11i32..11i32
        invariant
            list_wf(world@),
            scene_prefix_ok(world@),
            world@.len() <= 1 + (a + 11) * 22,
    {
        for b in -11i32..11i32
            invariant
                list_wf(world@),
                scene_prefix_ok(world@),
                -11 <= a <= 10,
                world@.len() <= 1 + (a + 11) * 22 + (b + 11),
        {
            let choose_mat = rng_range(0, FP_ONE);
            let jx = rng_range(0, FP_ONE);
            let jz = rng_range(0, FP_ONE);
            proof {
                crate::fp::lemma_fmul_bound(900_000, jx as int, 900_000, 1_000_000);
                crate::fp::lemma_fmul_bound(900_000, jz as int, 900_000, 1_000_000);
            }
            let center = Vec3 {
                x: (a as i128) * FP_ONE + crate::fp::fp_mul(900_000, jx),
                y: 200_000,
                z: (b as i128) * FP_ONE + crate::fp::fp_mul(900_000, jz),
            };
            if center.sub(Vec3 { x: 4_000_000, y: 200_000, z: 0 }).length() > 900_000 {
                let sphere_material: Material;
                if choose_mat < 800_000 {
                    // diffuse
                    let c1 = Vec3::random_color();
                    let c2 = Vec3::random_color();
                    proof {
                        lemma_fmul_unit_range(c1@.x, c2@.x);
                        lemma_fmul_unit_range(c1@.y, c2@.y);
                        lemma_fmul_unit_range(c1@.z, c2@.z);
                    }
                    let albedo = c1.mul(c2);
                    proof {
                        assert(albedo@ == vmul(c1@, c2@));
                    }
                    sphere_material = Material::Lambertian(Lambertian::new(albedo));
                } else if choose_mat < 950_000 {
                    // metal
                    let albedo = Vec3::random_color_in_range(500_000, FP_ONE);
                    let fuzz = rng_range(0, 500_000);
                    sphere_material = Material::Metal(Metal::new(albedo, fuzz));
                } else {
                    // glass
                    sphere_material = Material::Dielectric(Dielectric::new(1_500_000));
                }
                let small = Sphere { center, radius: 200_000, material: sphere_material };
                proof {
                    assert(small@.center.x == grid_coord(a as int, jx as int));
                    assert(small@.center.z == grid_coord(b as int, jz as int));
                    assert(small_sphere_ok(small@));
                    crate::hit::lemma_list_wf_push(world@, small@);
                    lemma_scene_prefix_push(world@, small@);
                }
                world.add(small);
            }
        }
    }

    let ghost prefix = world@;

    let material1 = Material::Dielectric(Dielectric::new(1_500_000));
    let feature1 = Sphere {
        center: Vec3 { x: 0, y: FP_ONE, z: 0 },
        radius: FP_ONE,
        material: material1,
    };
    proof {
        crate::hit::lemma_list_wf_push(world@, feature1@);
    }
    world.add(feature1);

    let material2 = Material::Lambertian(
        Lambertian::new(Vec3 { x: 400_000, y: 200_000, z: 100_000 }),
    );
    let feature2 = Sphere {
        center: Vec3 { x: -4_000_000, y: FP_ONE, z: 0 },
        radius: FP_ONE,
        material: material2,
    };
    proof {
        crate::hit::lemma_list_wf_push(world@, feature2@);
    }
    world.add(feature2);

    let material3 = Material::Metal(Metal::new(Vec3 { x: 700_000, y: 600_000, z: 500_000 }, 0));
    let feature3 = Sphere {
        center: Vec3 { x: 4_000_000, y: FP_ONE, z: 0 },
        radius: FP_ONE,
        material: material3,
    };
    proof {
        crate::hit::lemma_list_wf_push(world@, feature3@);
    }
    world.add(feature3);

    proof {
        assert(world@ == prefix.push(feature1@).push(feature2@).push(feature3@));
        assert(world@[world@.len() - 3] == feature1@);
        assert(world@[world@.len() - 2] == feature2@);
        assert(world@[world@.len() - 1] == feature3@);
        assert(feature1@ == glass_feature());
        assert(feature2@ == matte_feature());
        assert(feature3@ == metal_feature());
        assert(world@[0] == prefix[0]);
        assert forall|i: int| 1 <= i < world@.len() - 3 implies small_sphere_ok(
            #[trigger] world@[i],
        ) by {
            assert(world@[i] == prefix[i]);
        }
    }
    world
}

} // verus!
