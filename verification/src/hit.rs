//! Ray-object intersection: hit records, spheres, and the aggregate list.
//!
//! `sphere_hit_spec` is the exact mathematical model of one intersection
//! query; `Sphere::hit` and `HittableList::hit` return precisely what the
//! model says.  A query returning a hit whose point or outward normal falls
//! outside the working bounds of the arithmetic reports no hit instead;
//! within the coordinate ranges a scene may use, those bounds are never
//! reached.

use vstd::prelude::*;
use crate::fp::{
    fdiv, fmul, fp_div, fp_mul, fp_sqrt, fsqrt, iabs, lemma_fdiv_bound, lemma_fmul_bound, FP_ONE,
};
use crate::materials::{mat_wf, MatV, Material};
use crate::ray::{ray_at, Ray, RayV};
use crate::vec::{
    lemma_vdot_bound, lemma_vls_nonneg, sdiv, vbounded, vdot, vls, vneg, vsub, V3, Vec3,
    VEC_ADD_LIM, VEC_MUL_LIM,
};

verus! {

/// Componentwise limit on scene coordinates: sphere centers, camera points
/// and ray directions.
pub const COORD_LIM: i128 = 10_000_000_000;

/// Componentwise limit on hit points and ray origins.
pub const POINT_LIM: i128 = 200_000_000_000_000;

/// Componentwise limit on reported surface normals.
pub const NORMAL_LIM: i128 = 4_000_000;

/// Smallest sphere radius magnitude the model admits.
pub const RADIUS_MIN: i128 = 1_000;

/// Upper limit of the `t` interval of an intersection query.
pub const T_LIM: i128 = 10_000_000_000;

/// Mathematical model of a hit record.
pub ghost struct HitV {
    pub t: int,
    pub p: V3,
    pub normal: Option<V3>,
    pub front_face: Option<bool>,
    pub material: Option<MatV>,
}

/// The result of a successful intersection.
#[derive(Clone, Copy, Debug)]
pub struct Hit {
    /// Ray parameter of the intersection point.
    pub t: i128,
    /// The intersection point itself.
    pub p: Vec3,
    /// Surface normal, oriented against the incoming ray once set.
    pub normal: Option<Vec3>,
    /// Whether the ray met the surface from outside.
    pub front_face: Option<bool>,
    /// The material of the surface that was hit.
    pub material: Option<Material>,
}

impl View for Hit {
    type V = HitV;

    open spec fn view(&self) -> HitV {
        HitV {
            t: self.t as int,
            p: self.p@,
            normal: match self.normal {
                Some(n) => Some(n@),
                None => None,
            },
            front_face: self.front_face,
            material: match self.material {
                Some(m) => Some(m@),
                None => None,
            },
        }
    }
}

pub open spec fn opt_hit_view(res: Option<Hit>) -> Option<HitV> {
    match res {
        Some(h) => Some(h@),
        None => None,
    }
}

impl Hit {
    pub fn new(t: i128, p: Vec3) -> (r: Hit)
        ensures
            r@.t == t as int,
            r@.p == p@,
            r@.normal is None,
            r@.front_face is None,
            r@.material is None,
    {
        Hit { t, p, normal: None, front_face: None, material: None }
    }

    /// Record the orientation of the surface: the reported normal always
    /// points against the incoming ray, and `front_face` says whether that
    /// is the outward side.
    pub fn set_face_normal(&mut self, ray: &Ray, outward_normal: Vec3)
        requires
            vbounded(old(self).p@, VEC_ADD_LIM as int),
            vbounded(ray@.direction, VEC_MUL_LIM as int),
            vbounded(outward_normal@, VEC_MUL_LIM as int),
        ensures
            final(self).t == old(self).t,
            final(self).p == old(self).p,
            final(self).material == old(self).material,
            final(self)@.front_face == Some(vdot(ray@.direction, outward_normal@) < 0),
            final(self)@.normal == Some(
                if vdot(ray@.direction, outward_normal@) < 0 {
                    outward_normal@
                } else {
                    vneg(outward_normal@)
                },
            ),
    {
        let front_face = ray.direction.dot(outward_normal) < 0;
        let normal = if front_face {
            outward_normal
        } else {
            outward_normal.neg()
        };
        self.front_face = Some(front_face);
        self.normal = Some(normal);
    }
}

/// Mathematical model of a sphere.
pub ghost struct SphereV {
    pub center: V3,
    pub radius: int,
    pub material: MatV,
}

/// An immutable scene primitive.
#[derive(Clone, Copy, Debug)]
pub struct Sphere {
    pub center: Vec3,
    pub radius: i128,
    pub material: Material,
}

impl View for Sphere {
    type V = SphereV;

    open spec fn view(&self) -> SphereV {
        SphereV { center: self.center@, radius: self.radius as int, material: self.material@ }
    }
}

/// Well-formed sphere: center within the scene coordinate range and a
/// radius that is neither tiny nor huge.  A negative radius is admitted; it
/// flips the outward normal inward.
pub open spec fn sphere_wf(s: SphereV) -> bool {
    &&& vbounded(s.center, COORD_LIM as int)
    &&& RADIUS_MIN as int <= iabs(s.radius) <= COORD_LIM as int
    &&& mat_wf(s.material)
}

/// A ray an intersection query admits.
pub open spec fn ray_wf(r: RayV) -> bool {
    &&& vbounded(r.origin, POINT_LIM as int)
    &&& vbounded(r.direction, COORD_LIM as int)
}

/// A `t` interval an intersection query admits.
pub open spec fn t_range_wf(t_min: int, t_max: int) -> bool {
    0 <= t_min && t_min <= t_max && t_max <= T_LIM as int
}

/// Half-b form of the intersection quadratic: its three coefficients.
pub open spec fn sphere_a(r: RayV) -> int {
    vls(r.direction)
}

pub open spec fn sphere_half_b(s: SphereV, r: RayV) -> int {
    vdot(vsub(r.origin, s.center), r.direction)
}

pub open spec fn sphere_c(s: SphereV, r: RayV) -> int {
    vls(vsub(r.origin, s.center)) - fmul(s.radius, s.radius)
}

pub open spec fn sphere_disc(s: SphereV, r: RayV) -> int {
    fmul(sphere_half_b(s, r), sphere_half_b(s, r)) - fmul(sphere_a(r), sphere_c(s, r))
}

/// The root the intersection reports: the smaller root of the quadratic if
/// it lies within the interval, else the larger root if it does, else
/// nothing.  A nonpositive discriminant short of zero, or a degenerate
/// direction, yields nothing.
pub open spec fn sphere_root(s: SphereV, r: RayV, t_min: int, t_max: int) -> Option<int> {
    let a = sphere_a(r);
    let disc = sphere_disc(s, r);
    if a == 0 || disc < 0 {
        None
    } else {
        let sqrtd = fsqrt(disc);
        let half_b = sphere_half_b(s, r);
        let root1 = fdiv(-half_b - sqrtd, a);
        if t_min <= root1 && root1 <= t_max {
            Some(root1)
        } else {
            let root2 = fdiv(-half_b + sqrtd, a);
            if t_min <= root2 && root2 <= t_max {
                Some(root2)
            } else {
                None
            }
        }
    }
}

/// Exact model of one sphere intersection query.
pub open spec fn sphere_hit_spec(s: SphereV, r: RayV, t_min: int, t_max: int) -> Option<HitV> {
    match sphere_root(s, r, t_min, t_max) {
        None => None,
        Some(t) => {
            let p = ray_at(r, t);
            let outward = sdiv(vsub(p, s.center), s.radius);
            if !vbounded(p, POINT_LIM as int) || !vbounded(outward, NORMAL_LIM as int) {
                None
            } else {
                let front = vdot(r.direction, outward) < 0;
                Some(
                    HitV {
                        t,
                        p,
                        normal: Some(
                            if front {
                                outward
                            } else {
                                vneg(outward)
                            },
                        ),
                        front_face: Some(front),
                        material: Some(s.material),
                    },
                )
            }
        },
    }
}

/// Capability of being intersected by a ray.
pub trait Hittable {
    /// What the implementor asks of a query.
    spec fn hit_req(&self, t_min: int, t_max: int, r: RayV) -> bool;

    /// The exact result of a query.
    spec fn hit_model(&self, t_min: int, t_max: int, r: RayV) -> Option<HitV>;

    /// Closest intersection with parameter inside `[t_min, t_max]`, if any.
    fn hit(&self, t_min: i128, t_max: i128, r: &Ray) -> (res: Option<Hit>)
        requires
            self.hit_req(t_min as int, t_max as int, r@),
        ensures
            opt_hit_view(res) == self.hit_model(t_min as int, t_max as int, r@),
    ;
}

impl Hittable for Sphere {
    open spec fn hit_req(&self, t_min: int, t_max: int, r: RayV) -> bool {
        sphere_wf(self@) && ray_wf(r) && t_range_wf(t_min, t_max)
    }

    open spec fn hit_model(&self, t_min: int, t_max: int, r: RayV) -> Option<HitV> {
        sphere_hit_spec(self@, r, t_min, t_max)
    }

    fn hit(&self, t_min: i128, t_max: i128, r: &Ray) -> (res: Option<Hit>) {
        let oc = r.origin.sub(self.center);
        proof {
            lemma_vdot_bound(r@.direction, r@.direction, COORD_LIM as int, COORD_LIM as int);
            lemma_vdot_bound(oc@, r@.direction, 210_000_000_000_000int, COORD_LIM as int);
            lemma_vdot_bound(oc@, oc@, 210_000_000_000_000int, 210_000_000_000_000int);
            lemma_fmul_bound(self@.radius, self@.radius, COORD_LIM as int, COORD_LIM as int);
        }
        let a = r.direction.length_squared();
        let half_b = oc.dot(r.direction);
        let c = oc.length_squared() - fp_mul(self.radius, self.radius);
        proof {
            lemma_fmul_bound(
                half_b as int,
                half_b as int,
                6_300_000_000_000_000_000int,
                6_300_000_000_000_000_000int,
            );
            lemma_fmul_bound(
                a as int,
                c as int,
                300_000_000_000_000int,
                140_000_000_000_000_000_000_000int,
            );
        }
        let disc = fp_mul(half_b, half_b) - fp_mul(a, c);
        if a == 0 {
            return None;
        }
        if disc < 0 {
            return None;
        }
        let sqrtd = fp_sqrt(disc);
        let mut root = fp_div(-half_b - sqrtd, a);
        if root < t_min || t_max < root {
            root = fp_div(-half_b + sqrtd, a);
            if root < t_min || t_max < root {
                return None;
            }
        }
        let t = root;
        let p = r.at(root);
        proof {
            lemma_fmul_bound(root as int, r@.direction.x, T_LIM as int, COORD_LIM as int);
            lemma_fmul_bound(root as int, r@.direction.y, T_LIM as int, COORD_LIM as int);
            lemma_fmul_bound(root as int, r@.direction.z, T_LIM as int, COORD_LIM as int);
        }
        if !bounded_by(&p, POINT_LIM) {
            return None;
        }
        let diff = p.sub(self.center);
        proof {
            lemma_fdiv_bound(diff@.x, self@.radius, 210_000_000_000_000int, RADIUS_MIN as int);
            lemma_fdiv_bound(diff@.y, self@.radius, 210_000_000_000_000int, RADIUS_MIN as int);
            lemma_fdiv_bound(diff@.z, self@.radius, 210_000_000_000_000int, RADIUS_MIN as int);
        }
        let outward_normal = diff.div(self.radius);
        if !bounded_by(&outward_normal, NORMAL_LIM) {
            return None;
        }
        let mut hit = Hit::new(t, p);
        hit.set_face_normal(r, outward_normal);
        hit.material = Some(self.material);
        Some(hit)
    }
}

/// All members of a scene are well formed.
pub open spec fn list_wf(objs: Seq<SphereV>) -> bool {
    forall|i: int| 0 <= i < objs.len() ==> sphere_wf(#[trigger] objs[i])
}

/// Exact model of an intersection query against a list of spheres: scan the
/// members in order, shrinking the upper bound of the interval to the
/// closest hit found so far.
pub open spec fn list_hit_spec(objs: Seq<SphereV>, t_min: int, t_max: int, r: RayV) -> Option<
    HitV,
>
    decreases objs.len(),
{
    if objs.len() == 0 {
        None
    } else {
        let prev = list_hit_spec(objs.drop_last(), t_min, t_max, r);
        let bound = match prev {
            Some(h) => h.t,
            None => t_max,
        };
        match sphere_hit_spec(objs.last(), r, t_min, bound) {
            Some(h) => Some(h),
            None => prev,
        }
    }
}

/// No false hits: a ray whose intersection quadratic has a negative
/// discriminant -- one that passes the sphere farther away than the radius
/// -- reports no hit, whatever the interval.
pub proof fn lemma_negative_discriminant_misses(s: SphereV, r: RayV, t_min: int, t_max: int)
    ensures
        sphere_disc(s, r) < 0 ==> sphere_hit_spec(s, r, t_min, t_max) is None,
{
}

/// Adding a well-formed sphere keeps a scene well formed.
pub proof fn lemma_list_wf_push(objs: Seq<SphereV>, s: SphereV)
    requires
        list_wf(objs),
        sphere_wf(s),
    ensures
        list_wf(objs.push(s)),
{
    assert forall|i: int| 0 <= i < objs.push(s).len() implies sphere_wf(
        #[trigger] objs.push(s)[i],
    ) by {
        if i < objs.len() {
            assert(objs.push(s)[i] == objs[i]);
        } else {
            assert(objs.push(s)[i] == s);
        }
    }
}

/// A reported root lies inside the query interval.
pub proof fn lemma_sphere_hit_range(s: SphereV, r: RayV, t_min: int, t_max: int)
    ensures
        match sphere_hit_spec(s, r, t_min, t_max) {
            Some(h) => t_min <= h.t <= t_max && vbounded(h.p, POINT_LIM as int)
                && h.material == Some(s.material),
            None => true,
        },
{
}

/// So does the root reported by a list query.
pub proof fn lemma_list_hit_range(objs: Seq<SphereV>, t_min: int, t_max: int, r: RayV)
    ensures
        match list_hit_spec(objs, t_min, t_max, r) {
            Some(h) => t_min <= h.t <= t_max,
            None => true,
        },
    decreases objs.len(),
{
    if objs.len() > 0 {
        lemma_list_hit_range(objs.drop_last(), t_min, t_max, r);
        let prev = list_hit_spec(objs.drop_last(), t_min, t_max, r);
        let bound = match prev {
            Some(h) => h.t,
            None => t_max,
        };
        lemma_sphere_hit_range(objs.last(), r, t_min, bound);
    }
}

/// A hit record ready for a material to consume: the orientation step has
/// run and the fields are within the working bounds.
pub open spec fn hit_scatter_ready(h: HitV) -> bool {
    &&& vbounded(h.p, POINT_LIM as int)
    &&& match h.normal {
        Some(n) => vbounded(n, NORMAL_LIM as int),
        None => false,
    }
    &&& h.front_face is Some
}

/// A sphere hit is ready for scattering and carries the sphere's material.
pub proof fn lemma_sphere_hit_ready(s: SphereV, r: RayV, t_min: int, t_max: int)
    requires
        sphere_wf(s),
    ensures
        match sphere_hit_spec(s, r, t_min, t_max) {
            Some(h) => hit_scatter_ready(h) && h.material == Some(s.material) && mat_wf(
                h.material->Some_0,
            ),
            None => true,
        },
{
}

/// So is a list hit.
pub proof fn lemma_list_hit_ready(objs: Seq<SphereV>, t_min: int, t_max: int, r: RayV)
    requires
        list_wf(objs),
    ensures
        match list_hit_spec(objs, t_min, t_max, r) {
            Some(h) => hit_scatter_ready(h) && (h.material matches Some(m) && mat_wf(m)),
            None => true,
        },
    decreases objs.len(),
{
    if objs.len() > 0 {
        lemma_list_hit_ready(objs.drop_last(), t_min, t_max, r);
        let prev = list_hit_spec(objs.drop_last(), t_min, t_max, r);
        let bound = match prev {
            Some(h) => h.t,
            None => t_max,
        };
        lemma_sphere_hit_ready(objs.last(), r, t_min, bound);
    }
}

/// Front-face invariant: a reported hit is front-facing exactly when the
/// ray direction opposes the outward normal, and the normal handed to the
/// caller never points along the incoming ray.
pub proof fn lemma_sphere_front_face(s: SphereV, r: RayV, t_min: int, t_max: int)
    ensures
        match sphere_hit_spec(s, r, t_min, t_max) {
            Some(h) => {
                let outward = sdiv(vsub(h.p, s.center), s.radius);
                &&& h.front_face == Some(vdot(r.direction, outward) < 0)
                &&& h.normal == Some(
                    if vdot(r.direction, outward) < 0 {
                        outward
                    } else {
                        vneg(outward)
                    },
                )
                &&& vdot(r.direction, h.normal->Some_0) <= 0
            },
            None => true,
        },
{
    match sphere_hit_spec(s, r, t_min, t_max) {
        Some(h) => {
            let outward = sdiv(vsub(h.p, s.center), s.radius);
            crate::vec::lemma_vdot_neg(r.direction, outward);
        },
        None => {},
    }
}

/// The two roots of the intersection quadratic come in order.
proof fn lemma_sphere_roots_ordered(s: SphereV, r: RayV)
    requires
        sphere_a(r) >= 1,
        sphere_disc(s, r) >= 0,
    ensures
        fdiv(-sphere_half_b(s, r) - fsqrt(sphere_disc(s, r)), sphere_a(r)) <= fdiv(
            -sphere_half_b(s, r) + fsqrt(sphere_disc(s, r)),
            sphere_a(r),
        ),
{
    let hb = sphere_half_b(s, r);
    let sq = fsqrt(sphere_disc(s, r));
    let a = sphere_a(r);
    crate::fp::lemma_fsqrt(sphere_disc(s, r));
    crate::fp::lemma_tdiv_mono((-hb - sq) * FP_ONE, (-hb + sq) * FP_ONE, a);
}

/// Narrowing the far end of the interval keeps a hit that still lies inside
/// it, and keeps a miss a miss.
pub proof fn lemma_sphere_hit_narrow(s: SphereV, r: RayV, t_min: int, tmax1: int, tmax2: int)
    requires
        tmax2 <= tmax1,
    ensures
        match sphere_hit_spec(s, r, t_min, tmax1) {
            Some(h) => h.t <= tmax2 ==> sphere_hit_spec(s, r, t_min, tmax2) == Some(h),
            None => sphere_hit_spec(s, r, t_min, tmax2) is None,
        },
{
    let a = sphere_a(r);
    let disc = sphere_disc(s, r);
    if a == 0 || disc < 0 {
    } else {
        lemma_vls_nonneg(r.direction);
        lemma_sphere_roots_ordered(s, r);
    }
}

/// The list reports the closest member intersection: whenever one member
/// reports a hit for the full interval, the hit the list reports is at most
/// as far along the ray.
pub proof fn lemma_list_closest_hit(
    objs: Seq<SphereV>,
    t_min: int,
    t_max: int,
    r: RayV,
    j: int,
    hj: HitV,
)
    requires
        0 <= j < objs.len(),
        sphere_hit_spec(objs[j], r, t_min, t_max) == Some(hj),
    ensures
        match list_hit_spec(objs, t_min, t_max, r) {
            Some(h) => h.t <= hj.t,
            None => false,
        },
    decreases objs.len(),
{
    let prev = list_hit_spec(objs.drop_last(), t_min, t_max, r);
    lemma_list_hit_range(objs.drop_last(), t_min, t_max, r);
    lemma_sphere_hit_range(objs[j], r, t_min, t_max);
    if j == objs.len() - 1 {
        match prev {
            None => {},
            Some(hp) => {
                lemma_sphere_hit_narrow(objs[j], r, t_min, t_max, hp.t);
                lemma_sphere_hit_range(objs[j], r, t_min, hp.t);
            },
        }
    } else {
        lemma_list_closest_hit(objs.drop_last(), t_min, t_max, r, j, hj);
        let hp = list_hit_spec(objs.drop_last(), t_min, t_max, r)->Some_0;
        lemma_sphere_hit_range(objs.last(), r, t_min, hp.t);
    }
}

/// A hit found with a tighter far bound is still found with a looser one.
pub proof fn lemma_sphere_hit_widen(s: SphereV, r: RayV, t_min: int, tmax1: int, tmax2: int)
    requires
        tmax1 <= tmax2,
        sphere_hit_spec(s, r, t_min, tmax1) is Some,
    ensures
        sphere_hit_spec(s, r, t_min, tmax2) is Some,
{
    lemma_vls_nonneg(r.direction);
    lemma_sphere_roots_ordered(s, r);
}

/// Every hit the list reports is a hit of one of its members.
pub proof fn lemma_list_hit_from_member(objs: Seq<SphereV>, t_min: int, t_max: int, r: RayV)
    ensures
        match list_hit_spec(objs, t_min, t_max, r) {
            Some(h) => exists|j: int, b: int|
                0 <= j < objs.len() && b <= t_max && #[trigger] sphere_hit_spec(
                    objs[j],
                    r,
                    t_min,
                    b,
                ) == Some(h),
            None => true,
        },
    decreases objs.len(),
{
    if objs.len() > 0 {
        lemma_list_hit_from_member(objs.drop_last(), t_min, t_max, r);
        lemma_list_hit_range(objs.drop_last(), t_min, t_max, r);
        let prev = list_hit_spec(objs.drop_last(), t_min, t_max, r);
        let bound = match prev {
            Some(h) => h.t,
            None => t_max,
        };
        match sphere_hit_spec(objs.last(), r, t_min, bound) {
            Some(h) => {
                assert(objs[objs.len() - 1] == objs.last());
                assert(sphere_hit_spec(objs[objs.len() - 1], r, t_min, bound) == Some(h));
            },
            None => {
                if prev is Some {
                    let h = prev->Some_0;
                    let (j, b): (int, int) = choose|j: int, b: int|
                        0 <= j < objs.drop_last().len() && b <= t_max
                            && #[trigger] sphere_hit_spec(
                            objs.drop_last()[j],
                            r,
                            t_min,
                            b,
                        ) == Some(h);
                    assert(objs.drop_last()[j] == objs[j]);
                    assert(sphere_hit_spec(objs[j], r, t_min, b) == Some(h));
                }
            },
        }
    }
}

/// The list misses exactly when every member misses.
pub proof fn lemma_list_miss(objs: Seq<SphereV>, t_min: int, t_max: int, r: RayV)
    ensures
        (list_hit_spec(objs, t_min, t_max, r) is None) <==> (forall|j: int|
            0 <= j < objs.len() ==> sphere_hit_spec(objs[j], r, t_min, t_max) is None),
{
    if list_hit_spec(objs, t_min, t_max, r) is None {
        assert forall|j: int| 0 <= j < objs.len() implies sphere_hit_spec(
            objs[j],
            r,
            t_min,
            t_max,
        ) is None by {
            if sphere_hit_spec(objs[j], r, t_min, t_max) is Some {
                let hj = sphere_hit_spec(objs[j], r, t_min, t_max)->Some_0;
                lemma_list_closest_hit(objs, t_min, t_max, r, j, hj);
            }
        }
    } else {
        let h = list_hit_spec(objs, t_min, t_max, r)->Some_0;
        lemma_list_hit_from_member(objs, t_min, t_max, r);
        let (j, b): (int, int) = choose|j: int, b: int|
            0 <= j < objs.len() && b <= t_max && #[trigger] sphere_hit_spec(objs[j], r, t_min, b)
                == Some(h);
        lemma_sphere_hit_widen(objs[j], r, t_min, b, t_max);
    }
}

/// An ordered collection of spheres, itself intersectable.
#[derive(Debug)]
pub struct HittableList {
    pub objects: Vec<Sphere>,
}

impl View for HittableList {
    type V = Seq<SphereV>;

    open spec fn view(&self) -> Seq<SphereV> {
        self.objects@.map_values(|s: Sphere| s@)
    }
}

impl HittableList {
    pub fn new() -> (r: HittableList)
        ensures
            r@.len() == 0,
    {
        HittableList { objects: Vec::new() }
    }

    pub fn clear(&mut self)
        ensures
            final(self)@.len() == 0,
    {
        self.objects.clear();
    }

    pub fn add(&mut self, object: Sphere)
        ensures
            final(self)@ == old(self)@.push(object@),
    {
        self.objects.push(object);
        proof {
            assert(self@ =~= old(self)@.push(object@));
        }
    }
}

impl Hittable for HittableList {
    open spec fn hit_req(&self, t_min: int, t_max: int, r: RayV) -> bool {
        list_wf(self@) && ray_wf(r) && t_range_wf(t_min, t_max)
    }

    open spec fn hit_model(&self, t_min: int, t_max: int, r: RayV) -> Option<HitV> {
        list_hit_spec(self@, t_min, t_max, r)
    }

    fn hit(&self, t_min: i128, t_max: i128, r: &Ray) -> (res: Option<Hit>) {
        let mut temp_rec: Option<Hit> = None;
        let mut closest_so_far = t_max;
        let n = self.objects.len();
        proof {
            assert(self@.take(0int) =~= Seq::<SphereV>::empty());
        }
        for i in 0..n
            invariant
                n == self.objects.len(),
                self.hit_req(t_min as int, t_max as int, r@),
                opt_hit_view(temp_rec) == list_hit_spec(
                    self@.take(i as int),
                    t_min as int,
                    t_max as int,
                    r@,
                ),
                closest_so_far as int == match opt_hit_view(temp_rec) {
                    Some(h) => h.t,
                    None => t_max as int,
                },
                t_min <= closest_so_far <= t_max,
        {
            proof {
                assert(self@[i as int] == self.objects@[i as int]@);
                assert(sphere_wf(self@[i as int]));
            }
            let result = self.objects[i].hit(t_min, closest_so_far, r);
            proof {
                lemma_sphere_hit_range(
                    self@[i as int],
                    r@,
                    t_min as int,
                    closest_so_far as int,
                );
                assert(self@.take(i + 1int).drop_last() =~= self@.take(i as int));
                assert(self@.take(i + 1int).last() == self@[i as int]);
            }
            if let Some(rec) = result {
                closest_so_far = rec.t;
                temp_rec = Some(rec);
            }
        }
        proof {
            assert(self@.take(n as int) =~= self@);
        }
        temp_rec
    }
}

/// True when every component of `v` is at most `b` in magnitude.
fn bounded_by(v: &Vec3, b: i128) -> (r: bool)
    requires
        b >= 0,
    ensures
        r == vbounded(v@, b as int),
{
    -b <= v.x && v.x <= b && -b <= v.y && v.y <= b && -b <= v.z && v.z <= b
}

} // verus!
