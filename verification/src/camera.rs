//! The camera: a closed-form linear map from normalized image-plane
//! coordinates to rays.

use vstd::prelude::*;
use crate::fp::{fmul, fp_mul, lemma_fmul_bound, FP_ONE};
use crate::hit::{ray_wf, COORD_LIM, POINT_LIM};
use crate::ray::{Ray, RayV};
use crate::vec::{sdiv, smul, vadd, vbounded, vcross, vls, vsub, vunit, V3, Vec3};

verus! {

/// Componentwise limit on the camera's precomputed basis vectors.
pub const CAM_LIM: i128 = 2_000_000_000;

/// Mathematical model of a camera.
pub ghost struct CameraV {
    pub origin: V3,
    pub lower_left_corner: V3,
    pub horizontal: V3,
    pub vertical: V3,
}

#[derive(Clone, Copy, Debug)]
pub struct Camera {
    origin: Vec3,
    lower_left_corner: Vec3,
    horizontal: Vec3,
    vertical: Vec3,
}

impl View for Camera {
    type V = CameraV;

    closed spec fn view(&self) -> CameraV {
        CameraV {
            origin: self.origin@,
            lower_left_corner: self.lower_left_corner@,
            horizontal: self.horizontal@,
            vertical: self.vertical@,
        }
    }
}

/// All precomputed fields are within the working bounds.
pub open spec fn camera_wf(c: CameraV) -> bool {
    &&& vbounded(c.origin, CAM_LIM as int)
    &&& vbounded(c.lower_left_corner, CAM_LIM as int)
    &&& vbounded(c.horizontal, CAM_LIM as int)
    &&& vbounded(c.vertical, CAM_LIM as int)
}

/// The camera the constructor builds from a viewpoint, a target, an up
/// direction, the tangent of half the vertical field of view, and the
/// aspect ratio.
pub open spec fn camera_of(
    look_from: V3,
    look_at: V3,
    vup: V3,
    tan_half_vfov: int,
    aspect_ratio: int,
) -> CameraV {
    let viewport_height = fmul(2 * FP_ONE, tan_half_vfov);
    let viewport_width = fmul(aspect_ratio, viewport_height);
    let w = vunit(vsub(look_from, look_at));
    let u = vunit(vcross(vup, w));
    let v = vcross(w, u);
    let horizontal = smul(viewport_width, u);
    let vertical = smul(viewport_height, v);
    let lower_left_corner = vsub(
        vsub(vsub(look_from, sdiv(horizontal, 2 * FP_ONE)), sdiv(vertical, 2 * FP_ONE)),
        w,
    );
    CameraV { origin: look_from, lower_left_corner, horizontal, vertical }
}

/// The ray through normalized image-plane coordinates `(s, t)`.
pub open spec fn camera_ray(c: CameraV, s: int, t: int) -> RayV {
    RayV {
        origin: c.origin,
        direction: vsub(
            vadd(vadd(c.lower_left_corner, smul(s, c.horizontal)), smul(t, c.vertical)),
            c.origin,
        ),
    }
}

impl Camera {
    /// Build a camera.  `tan_half_vfov` is the tangent of half the vertical
    /// field of view; the trigonometry that produces it from an angle is
    /// the caller's business.
    #[verifier::rlimit(60)]
    pub fn new(
        look_from: Vec3,
        look_at: Vec3,
        vup: Vec3,
        tan_half_vfov: i128,
        aspect_ratio: i128,
    ) -> (r: Camera)
        requires
            vbounded(look_from@, 1_000_000_000),
            vbounded(look_at@, 1_000_000_000),
            vbounded(vup@, 10_000_000),
            0 < tan_half_vfov <= 10_000_000,
            0 < aspect_ratio <= 10_000_000,
            vls(vsub(look_from@, look_at@)) >= 1,
            vls(vcross(vup@, vunit(vsub(look_from@, look_at@)))) >= 1,
        ensures
            r@ == camera_of(
                look_from@,
                look_at@,
                vup@,
                tan_half_vfov as int,
                aspect_ratio as int,
            ),
            camera_wf(r@),
    {
        proof {
            lemma_fmul_bound(2 * FP_ONE as int, tan_half_vfov as int, 2 * FP_ONE as int, 10_000_000);
        }
        let viewport_height = fp_mul(2 * FP_ONE, tan_half_vfov);
        proof {
            lemma_fmul_bound(aspect_ratio as int, viewport_height as int, 10_000_000, 20_000_000);
        }
        let viewport_width = fp_mul(aspect_ratio, viewport_height);

        let w = look_from.sub(look_at).to_unit_vector();
        let cr = vup.cross(w);
        proof {
            lemma_fmul_bound(vup@.x, w@.y, 10_000_000, 2_000_000);
            lemma_fmul_bound(vup@.x, w@.z, 10_000_000, 2_000_000);
            lemma_fmul_bound(vup@.y, w@.x, 10_000_000, 2_000_000);
            lemma_fmul_bound(vup@.y, w@.z, 10_000_000, 2_000_000);
            lemma_fmul_bound(vup@.z, w@.x, 10_000_000, 2_000_000);
            lemma_fmul_bound(vup@.z, w@.y, 10_000_000, 2_000_000);
        }
        let u = cr.to_unit_vector();
        let v = w.cross(u);
        proof {
            lemma_fmul_bound(w@.x, u@.y, 2_000_000, 2_000_000);
            lemma_fmul_bound(w@.x, u@.z, 2_000_000, 2_000_000);
            lemma_fmul_bound(w@.y, u@.x, 2_000_000, 2_000_000);
            lemma_fmul_bound(w@.y, u@.z, 2_000_000, 2_000_000);
            lemma_fmul_bound(w@.z, u@.x, 2_000_000, 2_000_000);
            lemma_fmul_bound(w@.z, u@.y, 2_000_000, 2_000_000);
            lemma_fmul_bound(viewport_width as int, u@.x, 200_000_000, 2_000_000);
            lemma_fmul_bound(viewport_width as int, u@.y, 200_000_000, 2_000_000);
            lemma_fmul_bound(viewport_width as int, u@.z, 200_000_000, 2_000_000);
            lemma_fmul_bound(viewport_height as int, v@.x, 20_000_000, 8_000_000);
            lemma_fmul_bound(viewport_height as int, v@.y, 20_000_000, 8_000_000);
            lemma_fmul_bound(viewport_height as int, v@.z, 20_000_000, 8_000_000);
        }

        let origin = look_from;
        let horizontal = u.scale(viewport_width);
        let vertical = v.scale(viewport_height);
        proof {
            crate::fp::lemma_fdiv_bound(horizontal@.x, 2 * FP_ONE as int, 400_000_000, 2_000_000);
            crate::fp::lemma_fdiv_bound(horizontal@.y, 2 * FP_ONE as int, 400_000_000, 2_000_000);
            crate::fp::lemma_fdiv_bound(horizontal@.z, 2 * FP_ONE as int, 400_000_000, 2_000_000);
            crate::fp::lemma_fdiv_bound(vertical@.x, 2 * FP_ONE as int, 160_000_000, 2_000_000);
            crate::fp::lemma_fdiv_bound(vertical@.y, 2 * FP_ONE as int, 160_000_000, 2_000_000);
            crate::fp::lemma_fdiv_bound(vertical@.z, 2 * FP_ONE as int, 160_000_000, 2_000_000);
        }
        let lower_left_corner = origin.sub(horizontal.div(2 * FP_ONE)).sub(
            vertical.div(2 * FP_ONE),
        ).sub(w);
        Camera { origin, horizontal, vertical, lower_left_corner }
    }

    /// The ray through normalized image-plane coordinates `(s, t)`.
    pub fn get_ray(&self, s: i128, t: i128) -> (r: Ray)
        requires
            camera_wf(self@),
            0 <= s <= FP_ONE,
            0 <= t <= FP_ONE,
        ensures
            r@ == camera_ray(self@, s as int, t as int),
            ray_wf(r@),
    {
        proof {
            lemma_fmul_bound(s as int, self@.horizontal.x, FP_ONE as int, CAM_LIM as int);
            lemma_fmul_bound(s as int, self@.horizontal.y, FP_ONE as int, CAM_LIM as int);
            lemma_fmul_bound(s as int, self@.horizontal.z, FP_ONE as int, CAM_LIM as int);
            lemma_fmul_bound(t as int, self@.vertical.x, FP_ONE as int, CAM_LIM as int);
            lemma_fmul_bound(t as int, self@.vertical.y, FP_ONE as int, CAM_LIM as int);
            lemma_fmul_bound(t as int, self@.vertical.z, FP_ONE as int, CAM_LIM as int);
        }
        Ray::new(
            self.origin,
            self.lower_left_corner.add(self.horizontal.scale(s)).add(
                self.vertical.scale(t),
            ).sub(self.origin),
        )
    }
}

} // verus!
