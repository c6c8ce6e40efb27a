//! Materials: how light scatters when a ray meets a surface.
//!
//! A material is one of three variants.  Lambertian surfaces scatter
//! diffusely, metals reflect with an optional fuzz, and dielectrics either
//! reflect or refract.  Scattering draws on a random source, so the
//! contracts state what holds of every outcome rather than one value.

use vstd::prelude::*;
use crate::fp::{
    fdiv, fmul, fp_div, fp_mul, fp_sqrt, fsqrt, iabs, lemma_fdiv_bound, lemma_fmul_bound, FP_ONE,
};
use crate::hit::{hit_scatter_ready, Hit, HitV, COORD_LIM};
use crate::ray::{Ray, RayV};
use crate::vec::{
    lemma_vdot_bound, smul, vadd, vbounded, vdot, vls, vneg, vother_refract, vreflect, vunit,
    vzero, V3, Vec3,
};
use vstd::arithmetic::div_mod::lemma_div_is_ordered_by_denominator;

verus! {

/// Mathematical model of a material.
pub ghost enum MatV {
    Lambertian { albedo: V3 },
    Metal { albedo: V3, fuzz: int },
    Dielectric { ir: int },
}

/// An albedo is a color: each channel lies in [0, 1].
pub open spec fn albedo_wf(a: V3) -> bool {
    &&& 0 <= a.x <= FP_ONE as int
    &&& 0 <= a.y <= FP_ONE as int
    &&& 0 <= a.z <= FP_ONE as int
}

/// Well-formed material: color channels in [0, 1], fuzz in [0, 1], and a
/// refractive index between 0.1 and 10.
pub open spec fn mat_wf(m: MatV) -> bool {
    match m {
        MatV::Lambertian { albedo } => albedo_wf(albedo),
        MatV::Metal { albedo, fuzz } => albedo_wf(albedo) && 0 <= fuzz <= FP_ONE as int,
        MatV::Dielectric { ir } => (FP_ONE as int) / 10 <= ir <= 10 * (FP_ONE as int),
    }
}

#[derive(Clone, Copy, Debug)]
pub struct Lambertian {
    /// Reflectance per color channel.
    pub albedo: Vec3,
}

#[derive(Clone, Copy, Debug)]
pub struct Metal {
    /// Reflectance per color channel.
    pub albedo: Vec3,
    /// Roughness of the reflection, in [0, 1].
    pub fuzz: i128,
}

#[derive(Clone, Copy, Debug)]
pub struct Dielectric {
    /// Index of refraction.
    pub ir: i128,
}

/// A scattering capability with three physical behaviors.
#[derive(Clone, Copy, Debug)]
pub enum Material {
    Lambertian(Lambertian),
    Metal(Metal),
    Dielectric(Dielectric),
}

impl View for Material {
    type V = MatV;

    open spec fn view(&self) -> MatV {
        match self {
            Material::Lambertian(l) => MatV::Lambertian { albedo: l.albedo@ },
            Material::Metal(m) => MatV::Metal { albedo: m.albedo@, fuzz: m.fuzz as int },
            Material::Dielectric(d) => MatV::Dielectric { ir: d.ir as int },
        }
    }
}

impl Lambertian {
    pub fn new(color: Vec3) -> (r: Lambertian)
        ensures
            r.albedo@ == color@,
    {
        Lambertian { albedo: color }
    }
}

impl Metal {
    /// The fuzz parameter is clamped into [0, 1] at construction.
    pub fn new(color: Vec3, f: i128) -> (r: Metal)
        ensures
            r.albedo@ == color@,
            r.fuzz as int == if f < 0 {
                0int
            } else if f > FP_ONE as int {
                FP_ONE as int
            } else {
                f as int
            },
            0 <= r.fuzz <= FP_ONE,
    {
        Metal {
            albedo: color,
            fuzz: if f < 0 {
                0
            } else if f < FP_ONE {
                f
            } else {
                FP_ONE
            },
        }
    }
}

impl Dielectric {
    pub fn new(index_of_refraction: i128) -> (r: Dielectric)
        ensures
            r.ir == index_of_refraction,
    {
        Dielectric { ir: index_of_refraction }
    }
}

/// Mathematical model of a scatter outcome.
pub ghost struct ScatterV {
    pub attenuation: V3,
    pub ray: RayV,
}

/// The outcome of a material interaction: a color filter and a new bounce.
#[derive(Clone, Copy, Debug)]
pub struct Scatter {
    pub attenuation: Vec3,
    pub ray: Ray,
}

impl View for Scatter {
    type V = ScatterV;

    open spec fn view(&self) -> ScatterV {
        ScatterV { attenuation: self.attenuation@, ray: self.ray@ }
    }
}

/// What the integrator relies on of every scatter outcome: the bounce
/// starts at the hit point, its direction is within the scene coordinate
/// range, and the attenuation is a color.
pub open spec fn scatter_ok(rec: HitV, sc: ScatterV) -> bool {
    &&& sc.ray.origin == rec.p
    &&& vbounded(sc.ray.direction, COORD_LIM as int)
    &&& albedo_wf(sc.attenuation)
}

/// A ray a scatter routine admits: the direction can be normalized.
pub open spec fn ray_scatter_wf(r: RayV) -> bool {
    vbounded(r.direction, COORD_LIM as int) && vls(r.direction) >= 1
}

/// Exact scatter of a diffuse surface, given the sampled unit vector `u`:
/// the bounce leaves the hit point along normal + u, or along the normal
/// itself when that sum degenerates to zero.
pub open spec fn lambertian_scatter_spec(albedo: V3, rec: HitV, u: V3) -> ScatterV {
    let n = rec.normal->Some_0;
    let d = vadd(n, u);
    ScatterV {
        attenuation: albedo,
        ray: RayV {
            origin: rec.p,
            direction: if d == vzero() {
                n
            } else {
                d
            },
        },
    }
}

impl Lambertian {
    /// The deterministic core of diffuse scattering, taking the sampled
    /// unit vector as an argument.
    pub fn scatter_with(&self, rec: &Hit, unit_sample: Vec3) -> (r: Scatter)
        requires
            hit_scatter_ready(rec@),
            vbounded(unit_sample@, 2 * (FP_ONE as int)),
        ensures
            r@ == lambertian_scatter_spec(self.albedo@, rec@, unit_sample@),
            vbounded(r@.ray.direction, COORD_LIM as int),
            albedo_wf(self.albedo@) ==> scatter_ok(rec@, r@),
    {
        let normal = rec.normal.unwrap();
        let mut scatter_direction = normal.add(unit_sample);
        if scatter_direction.near_zero() {
            scatter_direction = normal;
        }
        Scatter {
            attenuation: self.albedo,
            ray: Ray { origin: rec.p, direction: scatter_direction },
        }
    }

    /// Diffuse scattering: always scatters, filtering by the albedo.
    pub fn scatter(&self, _r_in: &Ray, rec: &Hit) -> (res: Option<Scatter>)
        requires
            hit_scatter_ready(rec@),
        ensures
            res is Some,
            res matches Some(sc) ==> {
                &&& sc@.attenuation == self.albedo@
                &&& sc@.ray.origin == rec@.p
                &&& vbounded(sc@.ray.direction, COORD_LIM as int)
                &&& exists|u: V3|
                    vbounded(u, 2 * (FP_ONE as int)) && sc@ == #[trigger] lambertian_scatter_spec(
                        self.albedo@,
                        rec@,
                        u,
                    )
            },
    {
        let u = Vec3::random_unit_vector();
        Some(self.scatter_with(rec, u))
    }
}

/// Exact scatter of a metal, given the sampled fuzz offset `p`: reflect the
/// unit incoming direction, perturb by fuzz * p, and scatter only if the
/// perturbed bounce still leaves the surface.
pub open spec fn metal_scatter_spec(
    albedo: V3,
    fuzz: int,
    r_in: RayV,
    rec: HitV,
    p: V3,
) -> Option<ScatterV> {
    let n = rec.normal->Some_0;
    let d = vadd(vreflect(vunit(r_in.direction), n), smul(fuzz, p));
    if vdot(d, n) > 0 {
        Some(ScatterV { attenuation: albedo, ray: RayV { origin: rec.p, direction: d } })
    } else {
        None
    }
}

impl Metal {
    /// The deterministic core of metallic scattering, taking the sampled
    /// unit-ball point as an argument.
    pub fn scatter_with(&self, r_in: &Ray, rec: &Hit, sphere_sample: Vec3) -> (res: Option<
        Scatter,
    >)
        requires
            hit_scatter_ready(rec@),
            ray_scatter_wf(r_in@),
            0 <= self.fuzz <= FP_ONE,
            vbounded(sphere_sample@, FP_ONE as int),
        ensures
            match res {
                Some(sc) => metal_scatter_spec(
                    self.albedo@,
                    self.fuzz as int,
                    r_in@,
                    rec@,
                    sphere_sample@,
                ) == Some(sc@) && vbounded(sc@.ray.direction, COORD_LIM as int) && sc@.ray.origin
                    == rec@.p && sc@.attenuation == self.albedo@,
                None => metal_scatter_spec(
                    self.albedo@,
                    self.fuzz as int,
                    r_in@,
                    rec@,
                    sphere_sample@,
                ) is None,
            },
    {
        let unit = r_in.direction.to_unit_vector();
        let normal = rec.normal.unwrap();
        proof {
            lemma_vdot_bound(vunit(r_in@.direction), rec@.normal->Some_0, 2_000_000, 4_000_000);
            lemma_fmul_bound(
                2 * FP_ONE as int,
                vdot(vunit(r_in@.direction), rec@.normal->Some_0),
                2 * FP_ONE as int,
                24_000_000,
            );
            let twod = fmul(2 * FP_ONE as int, vdot(vunit(r_in@.direction), rec@.normal->Some_0));
            lemma_fmul_bound(twod, rec@.normal->Some_0.x, 48_000_000, 4_000_000);
            lemma_fmul_bound(twod, rec@.normal->Some_0.y, 48_000_000, 4_000_000);
            lemma_fmul_bound(twod, rec@.normal->Some_0.z, 48_000_000, 4_000_000);
            lemma_fmul_bound(self.fuzz as int, sphere_sample@.x, FP_ONE as int, FP_ONE as int);
            lemma_fmul_bound(self.fuzz as int, sphere_sample@.y, FP_ONE as int, FP_ONE as int);
            lemma_fmul_bound(self.fuzz as int, sphere_sample@.z, FP_ONE as int, FP_ONE as int);
        }
        let reflected = Vec3::reflect(&unit, &normal);
        let scattered_direction = reflected.add(sphere_sample.scale(self.fuzz));
        let same_direction = scattered_direction.dot(normal) > 0;
        if same_direction {
            Some(
                Scatter {
                    attenuation: self.albedo,
                    ray: Ray { origin: rec.p, direction: scattered_direction },
                },
            )
        } else {
            None
        }
    }

    /// Metallic scattering; the bounce is absorbed when the fuzzed
    /// reflection points into the surface.  Absorption can only come from
    /// the fuzz draw; with no fuzz, a reflection that leaves the surface is
    /// always scattered.
    pub fn scatter(&self, r_in: &Ray, rec: &Hit) -> (res: Option<Scatter>)
        requires
            hit_scatter_ready(rec@),
            ray_scatter_wf(r_in@),
            0 <= self.fuzz <= FP_ONE,
        ensures
            res matches Some(sc) ==> {
                &&& sc@.attenuation == self.albedo@
                &&& sc@.ray.origin == rec@.p
                &&& vbounded(sc@.ray.direction, COORD_LIM as int)
                &&& vdot(sc@.ray.direction, rec@.normal->Some_0) > 0
                &&& exists|p: V3|
                    vbounded(p, FP_ONE as int) && #[trigger] metal_scatter_spec(
                        self.albedo@,
                        self.fuzz as int,
                        r_in@,
                        rec@,
                        p,
                    ) == Some(sc@)
            },
            res is None ==> exists|p: V3|
                vbounded(p, FP_ONE as int) && #[trigger] metal_scatter_spec(
                    self.albedo@,
                    self.fuzz as int,
                    r_in@,
                    rec@,
                    p,
                ) is None,
            self.fuzz == 0 && vdot(
                vreflect(vunit(r_in@.direction), rec@.normal->Some_0),
                rec@.normal->Some_0,
            ) > 0 ==> res is Some,
    {
        let p = Vec3::random_in_unit_sphere();
        proof {
            if self.fuzz == 0 {
                crate::vec::lemma_smul_zero(p@);
                assert(vadd(vreflect(vunit(r_in@.direction), rec@.normal->Some_0), smul(0, p@))
                    == vreflect(vunit(r_in@.direction), rec@.normal->Some_0));
            }
        }
        self.scatter_with(r_in, rec, p)
    }
}

/// Christophe Schlick's approximation for the reflectivity of glass, as a
/// function of the angle of incidence and index of refraction.
pub open spec fn schlick_spec(cosine: int, index: int) -> int {
    let r0 = fdiv((FP_ONE as int) - index, (FP_ONE as int) + index);
    let r0sq = fmul(r0, r0);
    let omc = (FP_ONE as int) - cosine;
    r0sq + fmul((FP_ONE as int) - r0sq, fmul(fmul(fmul(fmul(omc, omc), omc), omc), omc))
}

fn schlick(cosine: i128, index: i128) -> (r: i128)
    requires
        100_000 <= index <= 10_000_000,
        iabs(cosine as int) <= 24_000_000,
    ensures
        r == schlick_spec(cosine as int, index as int),
{
    proof {
        lemma_fdiv_bound(
            (FP_ONE as int) - index,
            (FP_ONE as int) + index,
            9_000_000,
            1_100_000,
        );
        let r0 = fdiv((FP_ONE as int) - index, (FP_ONE as int) + index);
        lemma_fmul_bound(r0, r0, 9_000_000, 9_000_000);
        let omc = (FP_ONE as int) - cosine;
        lemma_fmul_bound(omc, omc, 25_000_000, 25_000_000);
        lemma_fmul_bound(fmul(omc, omc), omc, 625_000_000, 25_000_000);
        lemma_fmul_bound(fmul(fmul(omc, omc), omc), omc, 15_625_000_000, 25_000_000);
        lemma_fmul_bound(
            fmul(fmul(fmul(omc, omc), omc), omc),
            omc,
            390_625_000_000,
            25_000_000,
        );
        lemma_fmul_bound(
            (FP_ONE as int) - fmul(r0, r0),
            fmul(fmul(fmul(fmul(omc, omc), omc), omc), omc),
            82_000_000,
            9_765_625_000_000,
        );
    }
    let r0 = fp_div(FP_ONE - index, FP_ONE + index);
    let r0sq = fp_mul(r0, r0);
    let omc = FP_ONE - cosine;
    let p2 = fp_mul(omc, omc);
    let p3 = fp_mul(p2, omc);
    let p4 = fp_mul(p3, omc);
    let p5 = fp_mul(p4, omc);
    r0sq + fp_mul(FP_ONE - r0sq, p5)
}

/// Exact scatter of a dielectric, given the reflectance draw `rand01`:
/// total internal reflection forces a reflection; otherwise the draw picks
/// reflection when it falls below the Schlick reflectance, else refraction.
/// Glass absorbs nothing, so the attenuation is white.
pub open spec fn dielectric_scatter_spec(ir: int, r_in: RayV, rec: HitV, rand01: int) -> ScatterV {
    let n = rec.normal->Some_0;
    let ratio = if rec.front_face == Some(true) {
        fdiv(FP_ONE as int, ir)
    } else {
        ir
    };
    let unit = vunit(r_in.direction);
    let dd = vdot(vneg(unit), n);
    let cos_theta = if dd < FP_ONE as int {
        dd
    } else {
        FP_ONE as int
    };
    let sin_theta = fsqrt(iabs((FP_ONE as int) - fmul(cos_theta, cos_theta)));
    let direction = if fmul(ratio, sin_theta) > FP_ONE as int || schlick_spec(cos_theta, ratio)
        > rand01 {
        vreflect(unit, n)
    } else {
        vother_refract(unit, n, ratio)
    };
    ScatterV {
        attenuation: V3 { x: FP_ONE as int, y: FP_ONE as int, z: FP_ONE as int },
        ray: RayV { origin: rec.p, direction },
    }
}

impl Dielectric {
    /// The deterministic core of dielectric scattering, taking the
    /// reflectance draw as an argument.
    pub fn scatter_with(&self, r_in: &Ray, rec: &Hit, rand01: i128) -> (r: Scatter)
        requires
            hit_scatter_ready(rec@),
            ray_scatter_wf(r_in@),
            100_000 <= self.ir <= 10_000_000,
            0 <= rand01 < FP_ONE,
        ensures
            r@ == dielectric_scatter_spec(self.ir as int, r_in@, rec@, rand01 as int),
            vbounded(r@.ray.direction, COORD_LIM as int),
            r@.ray.origin == rec@.p,
            r@.attenuation == (V3 { x: FP_ONE as int, y: FP_ONE as int, z: FP_ONE as int }),
    {
        let attenuation = Vec3 { x: FP_ONE, y: FP_ONE, z: FP_ONE };
        proof {
            lemma_div_is_ordered_by_denominator(1_000_000_000_000int, 100_000, self.ir as int);
            lemma_div_is_ordered_by_denominator(1_000_000_000_000int, self.ir as int, 10_000_000);
        }
        let refraction_ratio = if rec.front_face.unwrap() {
            fp_div(FP_ONE, self.ir)
        } else {
            self.ir
        };
        let unit_direction = r_in.direction.to_unit_vector();
        let normal = rec.normal.unwrap();
        let neg_unit = unit_direction.neg();
        let dd = neg_unit.dot(normal);
        proof {
            lemma_vdot_bound(vneg(vunit(r_in@.direction)), rec@.normal->Some_0, 2_000_000, 4_000_000);
        }
        let cos_theta = if dd < FP_ONE {
            dd
        } else {
            FP_ONE
        };
        proof {
            lemma_fmul_bound(cos_theta as int, cos_theta as int, 24_000_000, 24_000_000);
            crate::fp::lemma_fmul_sq_nonneg(cos_theta as int);
        }
        let c2 = fp_mul(cos_theta, cos_theta);
        let rad = FP_ONE - c2;
        let radm = if rad < 0 {
            -rad
        } else {
            rad
        };
        let sin_theta = fp_sqrt(radm);
        proof {
            assert(sin_theta as int <= 24_000_001) by {
                if sin_theta > 24_000_001i128 {
                    assert(24_000_002int * 24_000_002int <= (sin_theta as int) * (sin_theta as int))
                        by (nonlinear_arith)
                        requires
                            sin_theta as int >= 24_000_002int,
                    ;
                }
            }
            lemma_fmul_bound(refraction_ratio as int, sin_theta as int, 10_000_000, 24_000_001);
        }
        let cannot_refract = fp_mul(refraction_ratio, sin_theta) > FP_ONE;
        let direction: Vec3;
        if cannot_refract || schlick(cos_theta, refraction_ratio) > rand01 {
            proof {
                lemma_vdot_bound(vunit(r_in@.direction), rec@.normal->Some_0, 2_000_000, 4_000_000);
                lemma_fmul_bound(
                    2 * FP_ONE as int,
                    vdot(vunit(r_in@.direction), rec@.normal->Some_0),
                    2 * FP_ONE as int,
                    24_000_000,
                );
                let twod = fmul(
                    2 * FP_ONE as int,
                    vdot(vunit(r_in@.direction), rec@.normal->Some_0),
                );
                lemma_fmul_bound(twod, rec@.normal->Some_0.x, 48_000_000, 4_000_000);
                lemma_fmul_bound(twod, rec@.normal->Some_0.y, 48_000_000, 4_000_000);
                lemma_fmul_bound(twod, rec@.normal->Some_0.z, 48_000_000, 4_000_000);
            }
            direction = Vec3::reflect(&unit_direction, &normal);
        } else {
            direction = Vec3::other_refract(unit_direction, normal, refraction_ratio);
        }
        Scatter { attenuation, ray: Ray { origin: rec.p, direction } }
    }

    /// Dielectric scattering: always scatters, reflecting or refracting at
    /// random by the Schlick reflectance.
    pub fn scatter(&self, r_in: &Ray, rec: &Hit) -> (res: Option<Scatter>)
        requires
            hit_scatter_ready(rec@),
            ray_scatter_wf(r_in@),
            100_000 <= self.ir <= 10_000_000,
        ensures
            res is Some,
            res matches Some(sc) ==> {
                &&& sc@.ray.origin == rec@.p
                &&& vbounded(sc@.ray.direction, COORD_LIM as int)
                &&& sc@.attenuation == (V3 {
                    x: FP_ONE as int,
                    y: FP_ONE as int,
                    z: FP_ONE as int,
                })
                &&& exists|q: int|
                    0 <= q < FP_ONE as int && sc@ == #[trigger] dielectric_scatter_spec(
                        self.ir as int,
                        r_in@,
                        rec@,
                        q,
                    )
            },
    {
        let rand01 = crate::rng::rng_range(0, FP_ONE);
        Some(self.scatter_with(r_in, rec, rand01))
    }
}

pub open spec fn opt_scatter_view(res: Option<Scatter>) -> Option<ScatterV> {
    match res {
        Some(sc) => Some(sc@),
        None => None,
    }
}

/// The outcome `out` is one of the material's possible scatters: the value
/// its deterministic core gives for some admissible random sample.
pub open spec fn scatter_possible(m: MatV, r_in: RayV, rec: HitV, out: Option<ScatterV>) -> bool {
    match m {
        MatV::Lambertian { albedo } => exists|u: V3|
            vbounded(u, 2 * (FP_ONE as int)) && out == Some(
                #[trigger] lambertian_scatter_spec(albedo, rec, u),
            ),
        MatV::Metal { albedo, fuzz } => exists|p: V3|
            vbounded(p, FP_ONE as int) && out == #[trigger] metal_scatter_spec(
                albedo,
                fuzz,
                r_in,
                rec,
                p,
            ),
        MatV::Dielectric { ir } => exists|q: int|
            0 <= q < FP_ONE as int && out == Some(
                #[trigger] dielectric_scatter_spec(ir, r_in, rec, q),
            ),
    }
}

impl Material {
    /// Dispatch to the variant's scatter routine.  Whatever the random
    /// outcome, a scattered bounce starts at the hit point, stays within
    /// the scene coordinate range, and is filtered by a color; the outcome
    /// is a possible scatter of the variant, and only a metal whose fuzz
    /// draw turns the reflection into the surface can absorb the ray.
    pub fn scatter(&self, r_in: &Ray, rec: &Hit) -> (res: Option<Scatter>)
        requires
            mat_wf(self@),
            hit_scatter_ready(rec@),
            ray_scatter_wf(r_in@),
        ensures
            match res {
                Some(sc) => scatter_ok(rec@, sc@),
                None => self@ matches MatV::Metal { fuzz, .. } && (fuzz == 0 ==> vdot(
                    vreflect(vunit(r_in@.direction), rec@.normal->Some_0),
                    rec@.normal->Some_0,
                ) <= 0),
            },
            scatter_possible(self@, r_in@, rec@, opt_scatter_view(res)),
    {
        match self {
            Material::Lambertian(l) => l.scatter(r_in, rec),
            Material::Metal(m) => m.scatter(r_in, rec),
            Material::Dielectric(d) => d.scatter(r_in, rec),
        }
    }
}

} // verus!
