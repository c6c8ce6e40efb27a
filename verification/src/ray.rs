//! Rays: an origin and a direction, with parametrized point evaluation.

use vstd::prelude::*;
use crate::fp::{
    fdiv, fmul, fp_div, fp_mul, fp_sqrt, fsqrt, iabs, lemma_abs_mul, lemma_fmul_bound,
    lemma_tdiv_abs, FP_ONE,
};
use crate::vec::{
    lemma_vdot_bound, lemma_vls_nonneg, smul, vadd, vbounded, vdot, vls, vsub, vunit, V3, Vec3,
    VEC_ADD_LIM, VEC_MUL_LIM,
};
use vstd::arithmetic::div_mod::lemma_div_by_multiple;

verus! {

/// Mathematical model of a ray.
pub ghost struct RayV {
    pub origin: V3,
    pub direction: V3,
}

#[derive(Clone, Copy, Debug, PartialEq, Eq, Structural)]
pub struct Ray {
    pub origin: Vec3,
    pub direction: Vec3,
}

impl View for Ray {
    type V = RayV;

    open spec fn view(&self) -> RayV {
        RayV { origin: self.origin@, direction: self.direction@ }
    }
}

/// The point a ray reaches at parameter `t`.
pub open spec fn ray_at(r: RayV, t: int) -> V3 {
    vadd(r.origin, smul(t, r.direction))
}

/// The sky radiance seen along a unit direction: a vertical blend from
/// white at the horizon to sky blue at the zenith.  The blend parameter is
/// clamped into [0, 1]; for a direction of length one the clamp is idle,
/// but a normalized fixed-point vector can overshoot one by a little.
pub open spec fn sky_gradient(unit: V3) -> V3 {
    let t0 = fmul(500_000, unit.y + FP_ONE);
    let t = if t0 < 0 {
        0int
    } else if t0 > FP_ONE as int {
        FP_ONE as int
    } else {
        t0
    };
    vadd(
        smul((FP_ONE as int) - t, V3 { x: FP_ONE as int, y: FP_ONE as int, z: FP_ONE as int }),
        smul(t, V3 { x: 500_000, y: 700_000, z: FP_ONE as int }),
    )
}

/// Every channel of the sky lies in [0, 1].
pub proof fn lemma_sky_range(unit: V3)
    ensures
        0 <= sky_gradient(unit).x <= FP_ONE as int,
        0 <= sky_gradient(unit).y <= FP_ONE as int,
        0 <= sky_gradient(unit).z <= FP_ONE as int,
{
    let t0 = fmul(500_000, unit.y + FP_ONE);
    let t = if t0 < 0 {
        0int
    } else if t0 > FP_ONE as int {
        FP_ONE as int
    } else {
        t0
    };
    lemma_fmul_one_right((FP_ONE as int) - t);
    lemma_fmul_one_right(t);
    crate::fp::lemma_fmul_unit_range(t, 500_000);
    crate::fp::lemma_fmul_unit_range(t, 700_000);
}

/// Multiplying by one on the right is exact.
pub proof fn lemma_fmul_one_right(x: int)
    ensures
        fmul(x, FP_ONE as int) == x,
{
    assert(x * (FP_ONE as int) == (FP_ONE as int) * x) by (nonlinear_arith);
    crate::vec::lemma_fmul_one(x);
}

/// Evaluate the sky blend along a unit direction.
pub fn sky_color(unit_direction: &Vec3) -> (r: Vec3)
    requires
        vbounded(unit_direction@, 2 * (FP_ONE as int)),
    ensures
        r@ == sky_gradient(unit_direction@),
        0 <= r@.x <= FP_ONE as int,
        0 <= r@.y <= FP_ONE as int,
        0 <= r@.z <= FP_ONE as int,
{
    proof {
        lemma_sky_range(unit_direction@);
    }
    let t0 = crate::fp::fp_mul(500_000, unit_direction.y + FP_ONE);
    let t = if t0 < 0 {
        0
    } else if t0 > FP_ONE {
        FP_ONE
    } else {
        t0
    };
    let white = Vec3 { x: FP_ONE, y: FP_ONE, z: FP_ONE };
    let sky_blue = Vec3 { x: 500_000, y: 700_000, z: FP_ONE };
    white.scale(FP_ONE - t).add(sky_blue.scale(t))
}

/// The sky radiance of a ray with a non-degenerate direction.
pub open spec fn sky_of_ray(r: RayV) -> V3 {
    sky_gradient(vunit(r.direction))
}

impl Ray {
    pub fn new(origin: Vec3, direction: Vec3) -> (r: Ray)
        ensures
            r@.origin == origin@,
            r@.direction == direction@,
    {
        Ray { origin, direction }
    }

    pub fn at(&self, t: i128) -> (p: Vec3)
        requires
            vbounded(self@.origin, VEC_ADD_LIM as int),
            vbounded(self@.direction, VEC_MUL_LIM as int),
            iabs(t as int) <= VEC_MUL_LIM as int,
        ensures
            p@ == ray_at(self@, t as int),
    {
        proof {
            lemma_fmul_bound(t as int, self@.direction.x, VEC_MUL_LIM as int, VEC_MUL_LIM as int);
            lemma_fmul_bound(t as int, self@.direction.y, VEC_MUL_LIM as int, VEC_MUL_LIM as int);
            lemma_fmul_bound(t as int, self@.direction.z, VEC_MUL_LIM as int, VEC_MUL_LIM as int);
        }
        self.origin.add(self.direction.scale(t))
    }

    /// The smaller quadratic root of the intersection of this ray with the
    /// given sphere, using the full-b form, or -1 when there is none.  A
    /// degenerate direction reports -1 as well.
    pub fn hit_sphere(&self, center: Vec3, radius: i128) -> (t: i128)
        requires
            vbounded(self@.origin, crate::hit::POINT_LIM as int),
            vbounded(self@.direction, crate::hit::COORD_LIM as int),
            vbounded(center@, crate::hit::COORD_LIM as int),
            iabs(radius as int) <= crate::hit::COORD_LIM as int,
        ensures
            t == hit_sphere_spec(self@, center@, radius as int),
    {
        let oc = self.origin.sub(center);
        proof {
            lemma_vdot_bound(
                self@.direction,
                self@.direction,
                crate::hit::COORD_LIM as int,
                crate::hit::COORD_LIM as int,
            );
            lemma_vdot_bound(
                oc@,
                self@.direction,
                210_000_000_000_000int,
                crate::hit::COORD_LIM as int,
            );
            lemma_vdot_bound(oc@, oc@, 210_000_000_000_000int, 210_000_000_000_000int);
            lemma_fmul_bound(
                radius as int,
                radius as int,
                crate::hit::COORD_LIM as int,
                crate::hit::COORD_LIM as int,
            );
            lemma_fmul_bound(
                2 * FP_ONE as int,
                vdot(vsub(self@.origin, center@), self@.direction),
                2 * FP_ONE as int,
                6_300_000_000_000_000_000int,
            );
        }
        let a = self.direction.dot(self.direction);
        let b = fp_mul(2 * FP_ONE, oc.dot(self.direction));
        let c = oc.dot(oc) - fp_mul(radius, radius);
        proof {
            lemma_fmul_bound(
                b as int,
                b as int,
                12_600_000_000_000_000_000int,
                12_600_000_000_000_000_000int,
            );
            lemma_fmul_bound(4 * FP_ONE as int, a as int, 4 * FP_ONE as int, 300_000_000_000_000int);
            lemma_fmul_bound(
                fmul(4 * FP_ONE as int, a as int),
                c as int,
                1_200_000_000_000_000int,
                134_000_000_000_000_000_000_000int,
            );
        }
        let discriminant = fp_mul(b, b) - fp_mul(fp_mul(4 * FP_ONE, a), c);
        if a == 0 {
            return -FP_ONE;
        }
        if discriminant < 0 {
            return -FP_ONE;
        }
        let sqrtd = fp_sqrt(discriminant);
        proof {
            lemma_vls_nonneg(self@.direction);
            assert((2 * FP_ONE as int) * (a as int) == 2 * ((a as int) * (FP_ONE as int)))
                by (nonlinear_arith);
            assert((2 * (a as int)) * (FP_ONE as int) == 2 * ((a as int) * (FP_ONE as int)))
                by (nonlinear_arith);
            lemma_abs_mul(2 * FP_ONE as int, a as int);
            lemma_tdiv_abs((2 * FP_ONE as int) * (a as int), FP_ONE as int);
            lemma_div_by_multiple(2 * (a as int), FP_ONE as int);
        }
        let two_a = fp_mul(2 * FP_ONE, a);
        fp_div(-b - sqrtd, two_a)
    }

    /// Shade the fixed showcase sphere: the normal-colored sphere at
    /// (0, 0, -1) of radius one half, in front of the sky gradient.  The
    /// normal shading applies only where the intersection parameter is
    /// within the working range and the surface offset can be normalized;
    /// elsewhere the sky shows.
    pub fn ray_color(&self) -> (color: Vec3)
        requires
            vbounded(self@.origin, crate::hit::POINT_LIM as int),
            vbounded(self@.direction, crate::hit::COORD_LIM as int),
            vls(self@.direction) >= 1,
        ensures
            color@ == ray_color_simple_spec(self@),
    {
        let sphere_center = Vec3 { x: 0, y: 0, z: -FP_ONE };
        let t = self.hit_sphere(sphere_center, 500_000);
        if t > 0 && t <= crate::hit::T_LIM {
            proof {
                lemma_fmul_bound(t as int, self@.direction.x, crate::hit::T_LIM as int, crate::hit::COORD_LIM as int);
                lemma_fmul_bound(t as int, self@.direction.y, crate::hit::T_LIM as int, crate::hit::COORD_LIM as int);
                lemma_fmul_bound(t as int, self@.direction.z, crate::hit::T_LIM as int, crate::hit::COORD_LIM as int);
            }
            let p = self.at(t);
            let d = p.sub(sphere_center);
            proof {
                lemma_vls_nonneg(d@);
            }
            let ls = d.length_squared();
            if ls >= 1 {
                let normal = d.to_unit_vector();
                let shifted = Vec3 {
                    x: normal.x + FP_ONE,
                    y: normal.y + FP_ONE,
                    z: normal.z + FP_ONE,
                };
                return shifted.scale(500_000);
            }
        }
        let unit_direction = self.direction.to_unit_vector();
        sky_color(&unit_direction)
    }
}

/// Exact model of `Ray::hit_sphere`.
pub open spec fn hit_sphere_spec(r: RayV, center: V3, radius: int) -> int {
    let oc = vsub(r.origin, center);
    let a = vdot(r.direction, r.direction);
    let b = fmul(2 * FP_ONE, vdot(oc, r.direction));
    let c = vls(oc) - fmul(radius, radius);
    let disc = fmul(b, b) - fmul(fmul(4 * FP_ONE, a), c);
    if a == 0 || disc < 0 {
        -(FP_ONE as int)
    } else {
        fdiv(-b - fsqrt(disc), fmul(2 * FP_ONE, a))
    }
}

/// Exact model of `Ray::ray_color`.
pub open spec fn ray_color_simple_spec(r: RayV) -> V3 {
    let center = V3 { x: 0, y: 0, z: -(FP_ONE as int) };
    let t = hit_sphere_spec(r, center, 500_000);
    let offset = vsub(ray_at(r, t), center);
    if t > 0 && t <= crate::hit::T_LIM as int && vls(offset) >= 1 {
        let normal = vunit(offset);
        smul(
            500_000,
            V3 {
                x: normal.x + FP_ONE as int,
                y: normal.y + FP_ONE as int,
                z: normal.z + FP_ONE as int,
            },
        )
    } else {
        sky_gradient(vunit(r.direction))
    }
}

} // verus!
