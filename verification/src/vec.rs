//! Three-component fixed-point vectors, used both as geometric vectors and
//! as RGB colors.
//!
//! The view of a `Vec3` is a `V3`, a triple of mathematical integers; every
//! operation's contract states its result exactly over `V3`.

use vstd::prelude::*;
use crate::fp::{
    fdiv, fmul, fp_div, fp_mul, fp_sqrt, fsqrt, iabs, is_sqrt, lemma_abs_mul, lemma_fdiv_bound,
    lemma_fmul_bound, lemma_fmul_sq_nonneg, lemma_tdiv_abs, tdiv, FP_ONE,
};
use crate::rng::rng_range;
use vstd::arithmetic::div_mod::*;
use vstd::arithmetic::mul::*;

verus! {

/// Components of vectors fed to `dot`, `cross` and the other products must
/// stay below this magnitude so that intermediate products fit the machine.
pub const VEC_MUL_LIM: i128 = 1_000_000_000_000_000_000;

/// Componentwise limit under which additive operations cannot overflow.
pub const VEC_ADD_LIM: i128 = 0x3FFF_FFFF_FFFF_FFFF_FFFF_FFFF_FFFF_FFFF;

/// Mathematical model of a vector: a triple of unbounded integers.
pub ghost struct V3 {
    pub x: int,
    pub y: int,
    pub z: int,
}

#[derive(Clone, Copy, Debug, PartialEq, Eq, Structural)]
pub struct Vec3 {
    pub x: i128,
    pub y: i128,
    pub z: i128,
}

impl View for Vec3 {
    type V = V3;

    open spec fn view(&self) -> V3 {
        V3 { x: self.x as int, y: self.y as int, z: self.z as int }
    }
}

/// All three components are at most `b` in magnitude.
pub open spec fn vbounded(v: V3, b: int) -> bool {
    iabs(v.x) <= b && iabs(v.y) <= b && iabs(v.z) <= b
}

pub open spec fn vzero() -> V3 {
    V3 { x: 0, y: 0, z: 0 }
}

pub open spec fn vadd(a: V3, b: V3) -> V3 {
    V3 { x: a.x + b.x, y: a.y + b.y, z: a.z + b.z }
}

pub open spec fn vsub(a: V3, b: V3) -> V3 {
    V3 { x: a.x - b.x, y: a.y - b.y, z: a.z - b.z }
}

pub open spec fn vneg(a: V3) -> V3 {
    V3 { x: -a.x, y: -a.y, z: -a.z }
}

/// Componentwise (Hadamard) product.
pub open spec fn vmul(a: V3, b: V3) -> V3 {
    V3 { x: fmul(a.x, b.x), y: fmul(a.y, b.y), z: fmul(a.z, b.z) }
}

/// Scalar times vector.
pub open spec fn smul(t: int, v: V3) -> V3 {
    V3 { x: fmul(t, v.x), y: fmul(t, v.y), z: fmul(t, v.z) }
}

/// Vector divided by scalar.
pub open spec fn sdiv(v: V3, t: int) -> V3 {
    V3 { x: fdiv(v.x, t), y: fdiv(v.y, t), z: fdiv(v.z, t) }
}

pub open spec fn vdot(a: V3, b: V3) -> int {
    fmul(a.x, b.x) + fmul(a.y, b.y) + fmul(a.z, b.z)
}

pub open spec fn vcross(a: V3, b: V3) -> V3 {
    V3 {
        x: fmul(a.y, b.z) - fmul(a.z, b.y),
        y: fmul(a.z, b.x) - fmul(a.x, b.z),
        z: fmul(a.x, b.y) - fmul(a.y, b.x),
    }
}

/// Squared length.
pub open spec fn vls(v: V3) -> int {
    vdot(v, v)
}

/// Length, the fixed-point square root of the squared length.
pub open spec fn vlen(v: V3) -> int {
    fsqrt(vls(v))
}

/// Unit vector in the direction of `v`.
pub open spec fn vunit(v: V3) -> V3 {
    sdiv(v, vlen(v))
}

/// Mirror image of `v` about the plane with normal `n`.
pub open spec fn vreflect(v: V3, n: V3) -> V3 {
    vsub(v, smul(fmul(2 * FP_ONE, vdot(v, n)), n))
}

/// Componentwise limit on the operands of `reflect` and `refract`.
pub const REFLECT_LIM: i128 = 100_000_000_000;

/// Refraction by Snell's law in vector form, with the incidence cosine
/// clamped to at most one.  The radicand of the parallel component is taken
/// by magnitude so that the root is defined; on directions for which
/// refraction is geometrically possible it is nonnegative anyway.
pub open spec fn vrefract(uv: V3, n: V3, e: int) -> V3 {
    let dd = vdot(vneg(uv), n);
    let cos_theta = if dd < FP_ONE as int {
        dd
    } else {
        FP_ONE as int
    };
    let r_out_perp = smul(e, vadd(uv, smul(cos_theta, n)));
    let r_out_parallel = smul(-fsqrt(iabs((FP_ONE as int) - vls(r_out_perp))), n);
    vadd(r_out_perp, r_out_parallel)
}

/// The same refraction without the cosine clamp.
pub open spec fn vother_refract(uv: V3, n: V3, e: int) -> V3 {
    let cos_theta = vdot(vneg(uv), n);
    let r_out_parallel = smul(e, vadd(uv, smul(cos_theta, n)));
    let r_out_perp = smul(-fsqrt(iabs((FP_ONE as int) - vls(r_out_parallel))), n);
    vadd(r_out_parallel, r_out_perp)
}

/// A squared length is a sum of squares, hence nonnegative.
pub proof fn lemma_vls_nonneg(v: V3)
    ensures
        vls(v) >= 0,
        fmul(v.x, v.x) >= 0,
        fmul(v.y, v.y) >= 0,
        fmul(v.z, v.z) >= 0,
{
    lemma_fmul_sq_nonneg(v.x);
    lemma_fmul_sq_nonneg(v.y);
    lemma_fmul_sq_nonneg(v.z);
}

/// Multiplying by one is exact.
pub proof fn lemma_fmul_one(x: int)
    ensures
        fmul(FP_ONE as int, x) == x,
{
    lemma_abs_mul(FP_ONE as int, x);
    lemma_tdiv_abs((FP_ONE as int) * x, FP_ONE as int);
    lemma_div_by_multiple(iabs(x), FP_ONE as int);
    assert(iabs(x) * (FP_ONE as int) == (FP_ONE as int) * iabs(x)) by (nonlinear_arith);
}

/// Negating the first operand negates a dot product.
pub proof fn lemma_vdot_neg_left(a: V3, b: V3)
    ensures
        vdot(vneg(a), b) == -vdot(a, b),
{
    crate::fp::lemma_fmul_neg_left(a.x, b.x);
    crate::fp::lemma_fmul_neg_left(a.y, b.y);
    crate::fp::lemma_fmul_neg_left(a.z, b.z);
}

/// Scaling by zero gives the zero vector.
pub proof fn lemma_smul_zero(v: V3)
    ensures
        smul(0, v) == vzero(),
{
    assert(0 * v.x == 0 && 0 * v.y == 0 && 0 * v.z == 0) by (nonlinear_arith);
    assert(tdiv(0, FP_ONE as int) == 0);
}

/// Negation preserves the squared length.
pub proof fn lemma_vls_neg(a: V3)
    ensures
        vls(vneg(a)) == vls(a),
{
    crate::fp::lemma_fmul_neg_left(a.x, -a.x);
    crate::fp::lemma_fmul_neg(a.x, a.x);
    crate::fp::lemma_fmul_neg_left(a.y, -a.y);
    crate::fp::lemma_fmul_neg(a.y, a.y);
    crate::fp::lemma_fmul_neg_left(a.z, -a.z);
    crate::fp::lemma_fmul_neg(a.z, a.z);
}

/// Negating the second operand negates a dot product.
pub proof fn lemma_vdot_neg(a: V3, b: V3)
    ensures
        vdot(a, vneg(b)) == -vdot(a, b),
{
    crate::fp::lemma_fmul_neg(a.x, b.x);
    crate::fp::lemma_fmul_neg(a.y, b.y);
    crate::fp::lemma_fmul_neg(a.z, b.z);
}

/// Bound on a dot product from componentwise bounds on its operands.
pub proof fn lemma_vdot_bound(a: V3, b: V3, bound_a: int, bound_b: int)
    requires
        vbounded(a, bound_a),
        vbounded(b, bound_b),
    ensures
        iabs(vdot(a, b)) <= 3 * (bound_a * bound_b / (FP_ONE as int)),
{
    lemma_fmul_bound(a.x, b.x, bound_a, bound_b);
    lemma_fmul_bound(a.y, b.y, bound_a, bound_b);
    lemma_fmul_bound(a.z, b.z, bound_a, bound_b);
}

/// The length of a vector whose squared length is at least one unit is at
/// least one thousandth, and each component of its unit vector is at most 2.
pub proof fn lemma_unit_bound(v: V3)
    requires
        vbounded(v, VEC_MUL_LIM as int),
        vls(v) >= 1,
    ensures
        vlen(v) >= 1000,
        vbounded(vunit(v), 2 * (FP_ONE as int)),
{
    let s = FP_ONE as int;
    let ls = vls(v);
    let len = vlen(v);
    lemma_vls_nonneg(v);
    crate::fp::lemma_fsqrt(ls);
    assert(is_sqrt(ls * s, len));
    assert(len >= 1000) by {
        if len < 1000 {
            assert(0 <= len + 1 <= 1000 ==> (len + 1) * (len + 1) <= 1000000) by (nonlinear_arith);
            assert(ls >= 1 ==> ls * 1000000 >= 1000000) by (nonlinear_arith);
            assert(ls * s == ls * 1000000);
        }
    }
    lemma_unit_comp(v.x, ls, len);
    lemma_unit_comp(v.y, ls, len);
    lemma_unit_comp(v.z, ls, len);
}

proof fn lemma_unit_comp(c: int, ls: int, len: int)
    requires
        fmul(c, c) <= ls,
        ls >= 1,
        len >= 1000,
        is_sqrt(ls * (FP_ONE as int), len),
    ensures
        iabs(fdiv(c, len)) <= 2 * (FP_ONE as int),
{
    let s = FP_ONE as int;
    let a = iabs(c);
    lemma_tdiv_abs(c * s, len);
    crate::fp::lemma_abs_mul(c, s);
    assert(iabs(fdiv(c, len)) == a * s / len);
    if a <= 2000 {
        lemma_mul_inequality(a, 2000, s);
        lemma_div_is_ordered(a * s, 2000 * s, len);
        lemma_div_is_ordered_by_denominator(2000 * s, 1000, len);
    } else {
        // From the floor of c*c/s being at most ls: ls * s >= a * a - s + 1.
        assert((-c) * (-c) == c * c) by (nonlinear_arith);
        assert(c * c == a * a);
        lemma_tdiv_abs(c * c, s);
        lemma_fundamental_div_mod(a * a, s);
        lemma_mul_inequality(a * a / s, ls, s);
        assert(ls * s >= a * a - s + 1);
        // If 2 * len < a, squaring both sides contradicts the bound above.
        assert(2 * len >= a) by {
            if 2 * len < a {
                assert(0 <= 2 * (len + 1) <= a + 1 ==> 4 * ((len + 1) * (len + 1)) <= (a + 1) * (
                a + 1)) by (nonlinear_arith);
                assert(ls * s < (len + 1) * (len + 1));
                assert(4 * (a * a) - 4 * s + 4 <= (a + 1) * (a + 1));
                assert(4 * (a * a) - 4000000 + 4 <= (a + 1) * (a + 1) ==> 3 * (a * a) <= 4000000
                    + 2 * a - 3) by (nonlinear_arith);
                assert(a > 2000 ==> 3 * (a * a) > 4000000 + 2 * a - 3) by (nonlinear_arith);
                assert(false);
            }
        }
        lemma_mul_inequality(a, 2 * len, s);
        assert((2 * len) * s == (2 * s) * len) by (nonlinear_arith);
        lemma_div_is_ordered(a * s, (2 * s) * len, len);
        lemma_div_by_multiple(2 * s, len);
    }
}

impl Vec3 {
    pub fn x(&self) -> (r: i128)
        ensures
            r == self@.x,
    {
        self.x
    }

    pub fn y(&self) -> (r: i128)
        ensures
            r == self@.y,
    {
        self.y
    }

    pub fn z(&self) -> (r: i128)
        ensures
            r == self@.z,
    {
        self.z
    }

    pub fn neg(&self) -> (r: Vec3)
        requires
            vbounded(self@, VEC_ADD_LIM as int),
        ensures
            r@ == vneg(self@),
            vbounded(r@, VEC_ADD_LIM as int),
    {
        Vec3 { x: -self.x, y: -self.y, z: -self.z }
    }

    pub fn add(&self, other: Vec3) -> (r: Vec3)
        requires
            vbounded(self@, VEC_ADD_LIM as int),
            vbounded(other@, VEC_ADD_LIM as int),
        ensures
            r@ == vadd(self@, other@),
    {
        Vec3 { x: self.x + other.x, y: self.y + other.y, z: self.z + other.z }
    }

    pub fn sub(&self, other: Vec3) -> (r: Vec3)
        requires
            vbounded(self@, VEC_ADD_LIM as int),
            vbounded(other@, VEC_ADD_LIM as int),
        ensures
            r@ == vsub(self@, other@),
    {
        Vec3 { x: self.x - other.x, y: self.y - other.y, z: self.z - other.z }
    }

    /// Componentwise product, as when an attenuation color filters a radiance.
    pub fn mul(&self, other: Vec3) -> (r: Vec3)
        requires
            vbounded(self@, VEC_MUL_LIM as int),
            vbounded(other@, VEC_MUL_LIM as int),
        ensures
            r@ == vmul(self@, other@),
    {
        proof {
            lemma_fmul_bound(self@.x, other@.x, VEC_MUL_LIM as int, VEC_MUL_LIM as int);
            lemma_fmul_bound(self@.y, other@.y, VEC_MUL_LIM as int, VEC_MUL_LIM as int);
            lemma_fmul_bound(self@.z, other@.z, VEC_MUL_LIM as int, VEC_MUL_LIM as int);
        }
        Vec3 { x: fp_mul(self.x, other.x), y: fp_mul(self.y, other.y), z: fp_mul(self.z, other.z) }
    }

    /// Scalar times vector.
    pub fn scale(&self, t: i128) -> (r: Vec3)
        requires
            vbounded(self@, VEC_MUL_LIM as int),
            iabs(t as int) <= VEC_MUL_LIM as int,
        ensures
            r@ == smul(t as int, self@),
    {
        proof {
            lemma_fmul_bound(t as int, self@.x, VEC_MUL_LIM as int, VEC_MUL_LIM as int);
            lemma_fmul_bound(t as int, self@.y, VEC_MUL_LIM as int, VEC_MUL_LIM as int);
            lemma_fmul_bound(t as int, self@.z, VEC_MUL_LIM as int, VEC_MUL_LIM as int);
        }
        Vec3 { x: fp_mul(t, self.x), y: fp_mul(t, self.y), z: fp_mul(t, self.z) }
    }

    /// Vector divided by scalar.
    pub fn div(&self, t: i128) -> (r: Vec3)
        requires
            t != 0,
            vbounded(self@, VEC_MUL_LIM as int),
        ensures
            r@ == sdiv(self@, t as int),
    {
        proof {
            lemma_fdiv_bound(self@.x, t as int, VEC_MUL_LIM as int, 1);
            lemma_fdiv_bound(self@.y, t as int, VEC_MUL_LIM as int, 1);
            lemma_fdiv_bound(self@.z, t as int, VEC_MUL_LIM as int, 1);
        }
        Vec3 { x: fp_div(self.x, t), y: fp_div(self.y, t), z: fp_div(self.z, t) }
    }

    pub fn dot(&self, other: Vec3) -> (r: i128)
        requires
            vbounded(self@, VEC_MUL_LIM as int),
            vbounded(other@, VEC_MUL_LIM as int),
        ensures
            r == vdot(self@, other@),
    {
        proof {
            lemma_fmul_bound(self@.x, other@.x, VEC_MUL_LIM as int, VEC_MUL_LIM as int);
            lemma_fmul_bound(self@.y, other@.y, VEC_MUL_LIM as int, VEC_MUL_LIM as int);
            lemma_fmul_bound(self@.z, other@.z, VEC_MUL_LIM as int, VEC_MUL_LIM as int);
        }
        fp_mul(self.x, other.x) + fp_mul(self.y, other.y) + fp_mul(self.z, other.z)
    }

    pub fn cross(&self, other: Vec3) -> (r: Vec3)
        requires
            vbounded(self@, VEC_MUL_LIM as int),
            vbounded(other@, VEC_MUL_LIM as int),
        ensures
            r@ == vcross(self@, other@),
    {
        proof {
            lemma_fmul_bound(self@.y, other@.z, VEC_MUL_LIM as int, VEC_MUL_LIM as int);
            lemma_fmul_bound(self@.z, other@.y, VEC_MUL_LIM as int, VEC_MUL_LIM as int);
            lemma_fmul_bound(self@.z, other@.x, VEC_MUL_LIM as int, VEC_MUL_LIM as int);
            lemma_fmul_bound(self@.x, other@.z, VEC_MUL_LIM as int, VEC_MUL_LIM as int);
            lemma_fmul_bound(self@.x, other@.y, VEC_MUL_LIM as int, VEC_MUL_LIM as int);
            lemma_fmul_bound(self@.y, other@.x, VEC_MUL_LIM as int, VEC_MUL_LIM as int);
        }
        Vec3 {
            x: fp_mul(self.y, other.z) - fp_mul(self.z, other.y),
            y: fp_mul(self.z, other.x) - fp_mul(self.x, other.z),
            z: fp_mul(self.x, other.y) - fp_mul(self.y, other.x),
        }
    }

    pub fn length_squared(self) -> (r: i128)
        requires
            vbounded(self@, VEC_MUL_LIM as int),
        ensures
            r == vls(self@),
            r >= 0,
    {
        proof {
            lemma_vls_nonneg(self@);
        }
        self.dot(self)
    }

    pub fn length(self) -> (r: i128)
        requires
            vbounded(self@, VEC_MUL_LIM as int),
        ensures
            r == vlen(self@),
            is_sqrt(vls(self@) * (FP_ONE as int), r as int),
            r >= 0,
    {
        proof {
            lemma_vls_nonneg(self@);
            lemma_vdot_bound(self@, self@, VEC_MUL_LIM as int, VEC_MUL_LIM as int);
        }
        let ls = self.length_squared();
        fp_sqrt(ls)
    }

    /// Unit vector.  The direction must be non-degenerate: its squared
    /// length must reach one fixed-point unit.
    pub fn to_unit_vector(&self) -> (r: Vec3)
        requires
            vbounded(self@, VEC_MUL_LIM as int),
            vls(self@) >= 1,
        ensures
            r@ == vunit(self@),
            vbounded(r@, 2 * (FP_ONE as int)),
    {
        proof {
            lemma_unit_bound(self@);
        }
        let len = self.length();
        self.div(len)
    }

    /// Return true if the vector is close to zero in all dimensions.  The
    /// near-zero threshold is finer than one fixed-point unit, so only the
    /// zero vector qualifies.
    pub fn near_zero(&self) -> (r: bool)
        ensures
            r == (self@ == vzero()),
    {
        self.x == 0 && self.y == 0 && self.z == 0
    }

    /// Mirror `v` about the plane with normal `n`.
    pub fn reflect(v: &Vec3, n: &Vec3) -> (r: Vec3)
        requires
            vbounded(v@, REFLECT_LIM as int),
            vbounded(n@, REFLECT_LIM as int),
        ensures
            r@ == vreflect(v@, n@),
    {
        let d = v.dot(*n);
        proof {
            lemma_vdot_bound(v@, n@, REFLECT_LIM as int, REFLECT_LIM as int);
            lemma_fmul_bound(
                2 * FP_ONE as int,
                vdot(v@, n@),
                2 * FP_ONE as int,
                300_000_000_000_000_000int,
            );
        }
        let twod = fp_mul(2 * FP_ONE, d);
        proof {
            lemma_fmul_bound(twod as int, n@.x, 600_000_000_000_000_000int, REFLECT_LIM as int);
            lemma_fmul_bound(twod as int, n@.y, 600_000_000_000_000_000int, REFLECT_LIM as int);
            lemma_fmul_bound(twod as int, n@.z, 600_000_000_000_000_000int, REFLECT_LIM as int);
        }
        v.sub(n.scale(twod))
    }

    /// Tone-map one radiance triple to three bytes: negative channels clamp
    /// to 0, channels at or above 1 to 255, the rest scale by 255.999 and
    /// truncate.
    pub fn to_u8(&self) -> (r: [u8; 3])
        requires
            vbounded(self@, VEC_MUL_LIM as int),
        ensures
            r[0] == byte_of(self@.x),
            r[1] == byte_of(self@.y),
            r[2] == byte_of(self@.z),
    {
        [byte_from(self.x), byte_from(self.y), byte_from(self.z)]
    }

    pub fn to_rgb(&self) -> (r: Rgb8)
        requires
            vbounded(self@, VEC_MUL_LIM as int),
        ensures
            r.r == byte_of(self@.x),
            r.g == byte_of(self@.y),
            r.b == byte_of(self@.z),
    {
        let rgb = self.to_u8();
        Rgb8 { r: rgb[0], g: rgb[1], b: rgb[2] }
    }

    /// Average an accumulated color over the sample count, gamma-correct
    /// with gamma 2, clamp to [0, 0.999] and scale to a byte.
    pub fn to_rgb_sampled(&self, samples_per_pixel: usize) -> (r: Rgb8)
        requires
            samples_per_pixel >= 1,
            0 <= self@.x <= VEC_MUL_LIM as int,
            0 <= self@.y <= VEC_MUL_LIM as int,
            0 <= self@.z <= VEC_MUL_LIM as int,
        ensures
            r.r == gamma_byte(self@.x, samples_per_pixel as int),
            r.g == gamma_byte(self@.y, samples_per_pixel as int),
            r.b == gamma_byte(self@.z, samples_per_pixel as int),
    {
        Rgb8 {
            r: gamma_from(self.x, samples_per_pixel),
            g: gamma_from(self.y, samples_per_pixel),
            b: gamma_from(self.z, samples_per_pixel),
        }
    }
}

/// Per-component floor bounds tying the squared component of a normalized
/// vector to the squared component of the original.
proof fn lemma_unit_comp_near(c: int, ls: int, len: int) -> (w: int)
    requires
        fmul(c, c) <= ls,
        250_000 <= ls < FP_ONE as int,
        500_000 <= len <= 999_999,
        is_sqrt(ls * (FP_ONE as int), len),
    ensures
        w == iabs(fdiv(c, len)),
        0 <= w <= 2_000_000,
        (len * len) * (w * w) <= 1_000_000_000_000 * (iabs(c) * iabs(c)),
        1_000_000_000_000 * (iabs(c) * iabs(c)) < (len * len) * ((w + 1) * (w + 1)),
        1_000_000 * fmul(c, c) <= iabs(c) * iabs(c),
        iabs(c) * iabs(c) <= 1_000_000 * fmul(c, c) + 999_999,
        1_000_000 * fmul(fdiv(c, len), fdiv(c, len)) <= w * w,
        w * w <= 1_000_000 * fmul(fdiv(c, len), fdiv(c, len)) + 999_999,
{
    lemma_unit_comp(c, ls, len);
    let a = iabs(c);
    let u = fdiv(c, len);
    let w = iabs(u);
    lemma_tdiv_abs(c * 1_000_000, len);
    lemma_abs_mul(c, 1_000_000);
    assert(w == a * 1_000_000 / len);
    lemma_fundamental_div_mod(a * 1_000_000, len);
    assert(len * w <= a * 1_000_000);
    assert(len * (w + 1) == len * w + len) by (nonlinear_arith);
    assert(a * 1_000_000 < len * (w + 1));
    // Square both brackets: all quantities are nonnegative.
    lemma_mul_nonnegative(len, w);
    lemma_mul_inequality(len * w, a * 1_000_000, len * w);
    lemma_mul_inequality(len * w, a * 1_000_000, a * 1_000_000);
    assert((len * w) * (len * w) == (len * len) * (w * w)) by (nonlinear_arith);
    assert((a * 1_000_000) * (a * 1_000_000) == 1_000_000_000_000 * (a * a)) by (nonlinear_arith);
    assert((len * w) * (a * 1_000_000) == (a * 1_000_000) * (len * w)) by (nonlinear_arith);
    lemma_mul_nonnegative(a, 1_000_000);
    lemma_mul_inequality(a * 1_000_000, len * (w + 1), a * 1_000_000);
    lemma_mul_strict_inequality(a * 1_000_000, len * (w + 1), len * (w + 1));
    assert((len * (w + 1)) * (len * (w + 1)) == (len * len) * ((w + 1) * (w + 1)))
        by (nonlinear_arith);
    assert((a * 1_000_000) * (len * (w + 1)) == (len * (w + 1)) * (a * 1_000_000))
        by (nonlinear_arith);
    // Floor bounds for the two squared fixed-point products.
    assert((-c) * (-c) == c * c) by (nonlinear_arith);
    assert(c * c == a * a);
    assert(c * c >= 0) by (nonlinear_arith);
    lemma_tdiv_abs(c * c, 1_000_000);
    lemma_fundamental_div_mod(a * a, 1_000_000);
    assert(1_000_000 * fmul(c, c) <= a * a <= 1_000_000 * fmul(c, c) + 999_999);
    assert((-u) * (-u) == u * u) by (nonlinear_arith);
    assert(u * u == w * w);
    assert(u * u >= 0) by (nonlinear_arith);
    lemma_tdiv_abs(u * u, 1_000_000);
    lemma_fundamental_div_mod(w * w, 1_000_000);
    assert(1_000_000 * fmul(u, u) <= w * w <= 1_000_000 * fmul(u, u) + 999_999);
    w
}

/// Normalizing a vector whose squared length is at least one quarter gives
/// a vector of squared length one, up to a few dozen fixed-point units of
/// floor error.
pub proof fn lemma_vunit_near(v: V3)
    requires
        vbounded(v, FP_ONE as int),
        250_000 <= vls(v) < FP_ONE as int,
    ensures
        (FP_ONE as int) - 20 <= vls(vunit(v)) <= (FP_ONE as int) + 25,
{
    let ls = vls(v);
    lemma_vls_nonneg(v);
    crate::fp::lemma_fsqrt(ls);
    let len = vlen(v);
    assert(is_sqrt(ls * 1_000_000, len));
    assert(len >= 500_000) by {
        if len < 500_000 {
            assert(0 <= len + 1 <= 500_000 ==> (len + 1) * (len + 1) <= 250_000_000_000int)
                by (nonlinear_arith);
        }
    }
    assert(len <= 999_999) by {
        if len >= 1_000_000 {
            assert(len >= 1_000_000 ==> len * len >= 1_000_000_000_000int) by (nonlinear_arith);
        }
    }
    let wx = lemma_unit_comp_near(v.x, ls, len);
    let wy = lemma_unit_comp_near(v.y, ls, len);
    let wz = lemma_unit_comp_near(v.z, ls, len);
    let ax = iabs(v.x);
    let ay = iabs(v.y);
    let az = iabs(v.z);
    let mm = ax * ax + ay * ay + az * az;
    let ww = wx * wx + wy * wy + wz * wz;
    let lu = vls(vunit(v));
    assert(vunit(v) == sdiv(v, len));
    // Summed floor bounds.
    assert(1_000_000 * ls <= mm <= 1_000_000 * ls + 2_999_997);
    assert(1_000_000 * lu <= ww <= 1_000_000 * lu + 2_999_997);
    // Summed square brackets, distributing len*len over the sums.
    lemma_mul_is_distributive_add(len * len, wx * wx, wy * wy);
    lemma_mul_is_distributive_add(len * len, wx * wx + wy * wy, wz * wz);
    assert((len * len) * ww <= 1_000_000_000_000 * mm);
    lemma_mul_is_distributive_add(len * len, (wx + 1) * (wx + 1), (wy + 1) * (wy + 1));
    lemma_mul_is_distributive_add(
        len * len,
        (wx + 1) * (wx + 1) + (wy + 1) * (wy + 1),
        (wz + 1) * (wz + 1),
    );
    let sq1 = (wx + 1) * (wx + 1) + (wy + 1) * (wy + 1) + (wz + 1) * (wz + 1);
    assert(1_000_000_000_000 * mm < (len * len) * sq1);
    assert((wx + 1) * (wx + 1) == wx * wx + 2 * wx + 1) by (nonlinear_arith);
    assert((wy + 1) * (wy + 1) == wy * wy + 2 * wy + 1) by (nonlinear_arith);
    assert((wz + 1) * (wz + 1) == wz * wz + 2 * wz + 1) by (nonlinear_arith);
    assert(sq1 == ww + 2 * (wx + wy + wz) + 3);
    // Bracket len * len by the squared length.
    assert(len * len <= ls * 1_000_000);
    assert((len + 1) * (len + 1) == len * len + 2 * len + 1) by (nonlinear_arith);
    assert(len * len >= ls * 1_000_000 - 2_000_000);
    // Upper bound on the normalized squared length.
    assert(lu <= 1_000_025int) by {
        if lu >= 1_000_026 {
            lemma_mul_inequality(ls * 1_000_000 - 2_000_000, len * len, ww);
            assert((ls * 1_000_000 - 2_000_000) * ww == ww * (ls * 1_000_000 - 2_000_000))
                by (nonlinear_arith);
            lemma_mul_inequality(1_000_026_000_000int, ww, ls * 1_000_000 - 2_000_000);
            assert(1_000_026_000_000int * (ls * 1_000_000 - 2_000_000)
                == 1_000_026_000_000_000_000 * ls - 2_000_052_000_000_000_000) by (nonlinear_arith);
            assert((len * len) * ww == ww * (len * len)) by (nonlinear_arith);
            assert(1_000_026_000_000_000_000 * ls - 2_000_052_000_000_000_000
                <= 1_000_000_000_000 * mm);
            assert(false);
        }
    }
    // Lower bound on the normalized squared length.
    assert(lu >= 999_980int) by {
        if lu <= 999_979 {
            assert(sq1 <= 999_994_000_000int);
            lemma_mul_inequality(len * len, ls * 1_000_000, sq1);
            assert((ls * 1_000_000) * sq1 == sq1 * (ls * 1_000_000)) by (nonlinear_arith);
            lemma_mul_inequality(sq1, 999_994_000_000int, ls * 1_000_000);
            assert(999_994_000_000int * (ls * 1_000_000) == 999_994_000_000_000_000 * ls)
                by (nonlinear_arith);
            assert(1_000_000_000_000 * mm >= 1_000_000_000_000_000_000 * ls);
            assert(false);
        }
    }
}

/// Matched media do not bend the ray: refraction with a ratio of one
/// returns the incoming unit direction unchanged, wherever the fixed-point
/// arithmetic is exact -- at head-on incidence against a unit normal, and
/// at incidence orthogonal to it.  At other angles rounding can move the
/// result by a few units in the last place, so the law is stated where it
/// is exact.
pub proof fn lemma_matched_media_refract(uv: V3, n: V3)
    requires
        vls(n) == FP_ONE as int,
        uv == vneg(n) || (vdot(vneg(uv), n) == 0 && vls(uv) == FP_ONE as int),
    ensures
        vother_refract(uv, n, FP_ONE as int) == uv,
{
    let s = FP_ONE as int;
    lemma_fmul_one(n.x);
    lemma_fmul_one(n.y);
    lemma_fmul_one(n.z);
    lemma_fmul_one(uv.x);
    lemma_fmul_one(uv.y);
    lemma_fmul_one(uv.z);
    lemma_fmul_one(0);
    assert(fmul(0, n.x) == 0 && fmul(0, n.y) == 0 && fmul(0, n.z) == 0) by {
        assert(0 * n.x == 0 && 0 * n.y == 0 && 0 * n.z == 0) by (nonlinear_arith);
        assert(tdiv(0, s) == 0);
    }
    assert(fsqrt(0) == 0) by {
        crate::fp::lemma_fsqrt(0);
        crate::fp::lemma_sqrt_unique(0, fsqrt(0), 0);
    }
    assert(fsqrt(s) == s) by {
        crate::fp::lemma_fsqrt(s);
        assert(1_000_000int * 1_000_000int == 1_000_000_000_000int) by (nonlinear_arith);
        assert(1_000_001int * 1_000_001int == 1_000_002_000_001int) by (nonlinear_arith);
        assert(is_sqrt(s * s, s));
        crate::fp::lemma_sqrt_unique(s * s, fsqrt(s), s);
    }
    if uv == vneg(n) {
        // Head-on: the perpendicular part vanishes and the parallel part is
        // the reversed normal, which is the incoming direction itself.
        assert(vneg(uv) == n);
        let cos = vdot(vneg(uv), n);
        assert(cos == s);
        assert(smul(cos, n) == n);
        assert(vadd(uv, n) == vzero());
        assert(smul(s, vzero()) == vzero());
        assert(vls(vzero()) == 0) by {
            assert(0 * 0 == 0) by (nonlinear_arith);
            assert(tdiv(0, s) == 0);
        }
        assert(iabs(s - 0) == s);
        crate::fp::lemma_fmul_neg_left(s, n.x);
        crate::fp::lemma_fmul_neg_left(s, n.y);
        crate::fp::lemma_fmul_neg_left(s, n.z);
        assert(smul(-s, n) == vneg(n));
        assert(vother_refract(uv, n, s) == vadd(vzero(), vneg(n)));
        assert(vadd(vzero(), vneg(n)) == vneg(n));
    } else {
        // Orthogonal: the cosine is zero, so the parallel part is the
        // incoming direction and the perpendicular part vanishes.
        let cos = vdot(vneg(uv), n);
        assert(cos == 0);
        assert(smul(cos, n) == vzero());
        assert(vadd(uv, vzero()) == uv);
        assert(smul(s, uv) == uv);
        assert(iabs(s - vls(uv)) == 0);
        assert(smul(-fsqrt(0), n) == vzero());
        assert(vother_refract(uv, n, s) == vadd(uv, vzero()));
    }
}

impl Vec3 {
    /// Bend `v` through a surface with normal `n` by Snell's law, for the
    /// ratio `etai_over_etat` of refractive indices.
    pub fn refract(v: &Vec3, n: &Vec3, etai_over_etat: i128) -> (r: Vec3)
        requires
            vbounded(v@, 2 * (FP_ONE as int)),
            vbounded(n@, 4_000_000),
            0 <= etai_over_etat <= 10_000_000,
        ensures
            r@ == vrefract(v@, n@, etai_over_etat as int),
            vbounded(r@, 10_000_000_000),
    {
        let neg_uv = v.neg();
        let dd = neg_uv.dot(*n);
        proof {
            lemma_vdot_bound(vneg(v@), n@, 2_000_000, 4_000_000);
        }
        let cos_theta = if dd < FP_ONE {
            dd
        } else {
            FP_ONE
        };
        refract_tail(v, n, etai_over_etat, cos_theta)
    }

    /// The same refraction without the cosine clamp, as used by the
    /// dielectric material.
    pub fn other_refract(uv: Vec3, n: Vec3, etai_over_etat: i128) -> (r: Vec3)
        requires
            vbounded(uv@, 2 * (FP_ONE as int)),
            vbounded(n@, 4_000_000),
            0 <= etai_over_etat <= 10_000_000,
        ensures
            r@ == vother_refract(uv@, n@, etai_over_etat as int),
            vbounded(r@, 10_000_000_000),
    {
        let neg_uv = uv.neg();
        let cos_theta = neg_uv.dot(n);
        proof {
            lemma_vdot_bound(vneg(uv@), n@, 2_000_000, 4_000_000);
        }
        refract_tail(&uv, &n, etai_over_etat, cos_theta)
    }

    /// Uniform sample of the unit disk in the xy plane, found by rejection;
    /// after a bounded number of draws the center is taken.
    pub fn random_in_unit_disk() -> (r: Vec3)
        ensures
            vbounded(r@, FP_ONE as int),
            0 <= vls(r@) < FP_ONE as int,
            r@.z == 0,
    {
        let mut k: usize = 0;
        while k < 64
            invariant
                k <= 64,
            decreases 64 - k,
        {
            let p = Vec3 { x: rng_range(-FP_ONE, FP_ONE), y: rng_range(-FP_ONE, FP_ONE), z: 0 };
            proof {
                lemma_vls_nonneg(p@);
            }
            let ls = p.length_squared();
            if ls < FP_ONE {
                return p;
            }
            k = k + 1;
        }
        let center = Vec3 { x: 0, y: 0, z: 0 };
        proof {
            lemma_vls_nonneg(center@);
        }
        center
    }

    pub fn random_color() -> (r: Vec3)
        ensures
            0 <= r@.x < FP_ONE as int,
            0 <= r@.y < FP_ONE as int,
            0 <= r@.z < FP_ONE as int,
    {
        Vec3::random_color_in_range(0, FP_ONE)
    }

    pub fn random_color_in_range(min: i128, max: i128) -> (r: Vec3)
        requires
            min < max,
            iabs(min as int) <= VEC_MUL_LIM as int,
            iabs(max as int) <= VEC_MUL_LIM as int,
        ensures
            min as int <= r@.x < max as int,
            min as int <= r@.y < max as int,
            min as int <= r@.z < max as int,
    {
        Vec3 { x: rng_range(min, max), y: rng_range(min, max), z: rng_range(min, max) }
    }

    /// Uniform sample of the unit ball, found by rejection; a draw whose
    /// squared length rounds to zero is rejected too, so the sample can be
    /// normalized.  After a bounded number of draws a fixed interior point
    /// is taken.
    pub fn random_in_unit_sphere() -> (r: Vec3)
        ensures
            vbounded(r@, FP_ONE as int),
            0 < vls(r@) < FP_ONE as int,
    {
        let mut k: usize = 0;
        while k < 64
            invariant
                k <= 64,
            decreases 64 - k,
        {
            let p = Vec3::random_color_in_range(-FP_ONE, FP_ONE);
            let ls = p.length_squared();
            if 0 < ls && ls < FP_ONE {
                return p;
            }
            k = k + 1;
        }
        let fallback = Vec3 { x: 500_000, y: 0, z: 0 };
        proof {
            assert(500_000int * 500_000int == 250_000_000_000int) by (nonlinear_arith);
            assert(250_000int * 1_000_000int == 250_000_000_000int) by (nonlinear_arith);
            lemma_div_by_multiple(250_000int, 1_000_000int);
            assert(fmul(500_000, 500_000) == 250_000);
            assert(fmul(0, 0) == 0);
        }
        fallback
    }

    /// Uniform random unit vector: a ball sample, normalized.  Samples
    /// whose squared length falls below one quarter are rejected, so that
    /// normalization is accurate: the result's squared length stays within
    /// a few dozen units of one.
    pub fn random_unit_vector() -> (r: Vec3)
        ensures
            vbounded(r@, 2 * (FP_ONE as int)),
            exists|p: V3|
                vbounded(p, FP_ONE as int) && 250_000 <= vls(p) < FP_ONE as int && r@
                    == #[trigger] vunit(p),
            (FP_ONE as int) - 20 <= vls(r@) <= (FP_ONE as int) + 25,
    {
        let mut k: usize = 0;
        while k < 64
            invariant
                k <= 64,
            decreases 64 - k,
        {
            let p = Vec3::random_color_in_range(-FP_ONE, FP_ONE);
            let ls = p.length_squared();
            if 250_000 <= ls && ls < FP_ONE {
                let u = p.to_unit_vector();
                proof {
                    assert(vbounded(p@, FP_ONE as int) && 250_000 <= vls(p@) < FP_ONE as int && u@
                        == vunit(p@));
                    lemma_vunit_near(p@);
                }
                return u;
            }
            k = k + 1;
        }
        let fallback = Vec3 { x: 500_000, y: 0, z: 0 };
        proof {
            assert(500_000int * 500_000int == 250_000_000_000int) by (nonlinear_arith);
            assert(250_000int * 1_000_000int == 250_000_000_000int) by (nonlinear_arith);
            lemma_div_by_multiple(250_000int, 1_000_000int);
            assert(fmul(500_000, 500_000) == 250_000);
            assert(fmul(0, 0) == 0);
        }
        let u = fallback.to_unit_vector();
        proof {
            assert(vbounded(fallback@, FP_ONE as int) && 250_000 <= vls(fallback@) < FP_ONE as int
                && u@ == vunit(fallback@));
            lemma_vunit_near(fallback@);
        }
        u
    }

    /// A unit-ball sample on the same side of the surface as `normal`.
    pub fn random_in_hemisphere(normal: &Vec3) -> (r: Vec3)
        requires
            vbounded(normal@, VEC_MUL_LIM as int),
        ensures
            vbounded(r@, FP_ONE as int),
            0 < vls(r@) < FP_ONE as int,
            vdot(r@, normal@) >= 0,
    {
        let in_unit_sphere = Vec3::random_in_unit_sphere();
        let d = in_unit_sphere.dot(*normal);
        if d > 0 {
            in_unit_sphere
        } else {
            proof {
                lemma_vdot_neg_left(in_unit_sphere@, normal@);
                lemma_vls_neg(in_unit_sphere@);
            }
            in_unit_sphere.neg()
        }
    }
}

/// Shared tail of the two refraction routines, from the incidence cosine on.
fn refract_tail(uv: &Vec3, n: &Vec3, e: i128, cos_theta: i128) -> (r: Vec3)
    requires
        vbounded(uv@, 2 * (FP_ONE as int)),
        vbounded(n@, 4_000_000),
        0 <= e <= 10_000_000,
        iabs(cos_theta as int) <= 24_000_000,
    ensures
        ({
            let r_out_perp = smul(e as int, vadd(uv@, smul(cos_theta as int, n@)));
            let r_out_parallel = smul(
                -fsqrt(iabs((FP_ONE as int) - vls(r_out_perp))),
                n@,
            );
            r@ == vadd(r_out_perp, r_out_parallel)
        }),
        vbounded(r@, 10_000_000_000),
{
    proof {
        lemma_fmul_bound(cos_theta as int, n@.x, 24_000_000, 4_000_000);
        lemma_fmul_bound(cos_theta as int, n@.y, 24_000_000, 4_000_000);
        lemma_fmul_bound(cos_theta as int, n@.z, 24_000_000, 4_000_000);
    }
    let scaled_n = n.scale(cos_theta);
    let inner = uv.add(scaled_n);
    proof {
        lemma_fmul_bound(e as int, inner@.x, 10_000_000, 98_000_000);
        lemma_fmul_bound(e as int, inner@.y, 10_000_000, 98_000_000);
        lemma_fmul_bound(e as int, inner@.z, 10_000_000, 98_000_000);
    }
    let r_out_perp = inner.scale(e);
    proof {
        lemma_vls_nonneg(r_out_perp@);
        lemma_vdot_bound(r_out_perp@, r_out_perp@, 1_000_000_000, 1_000_000_000);
    }
    let ls = r_out_perp.length_squared();
    let rad = FP_ONE - ls;
    let radm = if rad < 0 {
        -rad
    } else {
        rad
    };
    let s1 = fp_sqrt(radm);
    proof {
        assert(s1 as int <= 1_800_000_000) by {
            if s1 > 1_800_000_000i128 {
                assert(1_800_000_000int * 1_800_000_000int <= (s1 as int) * (s1 as int))
                    by (nonlinear_arith)
                    requires
                        s1 as int >= 1_800_000_000int,
                ;
            }
        }
        lemma_fmul_bound(-(s1 as int), n@.x, 1_800_000_000, 4_000_000);
        lemma_fmul_bound(-(s1 as int), n@.y, 1_800_000_000, 4_000_000);
        lemma_fmul_bound(-(s1 as int), n@.z, 1_800_000_000, 4_000_000);
    }
    let r_out_parallel = n.scale(-s1);
    r_out_perp.add(r_out_parallel)
}

/// Byte value of one color channel under the plain (ungamma'd) tone map.
pub open spec fn byte_of(c: int) -> int {
    if c < 0 {
        0
    } else if c >= FP_ONE as int {
        255
    } else {
        tdiv(fmul(c, 255_999_000), FP_ONE as int)
    }
}

/// Byte value of one accumulated channel averaged over `n` samples and
/// gamma-corrected with gamma 2.
pub open spec fn gamma_byte(c: int, n: int) -> int {
    let avg = tdiv(c, n);
    let root = fsqrt(avg);
    let clamped = if root > 999_000 {
        999_000int
    } else {
        root
    };
    tdiv(fmul(clamped, 256 * FP_ONE), FP_ONE as int)
}

fn byte_from(c: i128) -> (r: u8)
    requires
        iabs(c as int) <= VEC_MUL_LIM as int,
    ensures
        r == byte_of(c as int),
        0 <= byte_of(c as int) <= 255,
{
    if c < 0 {
        0
    } else if c >= FP_ONE {
        255
    } else {
        proof {
            lemma_fmul_bound(c as int, 255_999_000, FP_ONE as int, 255_999_000);
            lemma_tdiv_abs((c as int) * 255_999_000, FP_ONE as int);
            lemma_mul_nonnegative(c as int, 255_999_000);
            lemma_mul_inequality(c as int, FP_ONE as int - 1, 255_999_000);
            lemma_div_is_ordered(
                (c as int) * 255_999_000,
                (FP_ONE as int - 1) * 255_999_000,
                FP_ONE as int,
            );
        }
        let g = fp_mul(c, 255_999_000);
        proof {
            lemma_tdiv_abs(g as int, FP_ONE as int);
            lemma_div_is_ordered(g as int, 255_998_744, FP_ONE as int);
            lemma_div_pos_is_pos(g as int, FP_ONE as int);
        }
        ((g as u128) / (FP_ONE as u128)) as u8
    }
}

fn gamma_from(c: i128, n: usize) -> (r: u8)
    requires
        n >= 1,
        0 <= c <= VEC_MUL_LIM,
    ensures
        r == gamma_byte(c as int, n as int),
        0 <= gamma_byte(c as int, n as int) <= 255,
{
    let avg = ((c as u128) / (n as u128)) as i128;
    proof {
        lemma_div_pos_is_pos(c as int, n as int);
        lemma_div_is_ordered_by_denominator(c as int, 1, n as int);
        lemma_tdiv_abs(c as int, n as int);
    }
    let root = fp_sqrt(avg);
    proof {
        assert(is_sqrt((avg as int) * (FP_ONE as int), root as int));
        assert(root as int <= 1_000_000_000_000int) by {
            if root > 1_000_000_000_000i128 {
                assert(1_000_000_000_001int * 1_000_000_000_001int <= (root as int) * (
                root as int)) by (nonlinear_arith)
                    requires
                        root as int >= 1_000_000_000_001int,
                ;
            }
        }
    }
    let clamped = if root > 999_000 {
        999_000i128
    } else {
        root
    };
    proof {
        lemma_fmul_bound(clamped as int, 256 * FP_ONE as int, 999_000, 256 * FP_ONE as int);
        lemma_tdiv_abs((clamped as int) * (256 * FP_ONE as int), FP_ONE as int);
        lemma_mul_nonnegative(clamped as int, 256 * FP_ONE as int);
        lemma_mul_inequality(clamped as int, 999_000, 256 * FP_ONE as int);
        lemma_div_is_ordered(
            (clamped as int) * (256 * FP_ONE as int),
            999_000 * (256 * FP_ONE as int),
            FP_ONE as int,
        );
    }
    let g = fp_mul(clamped, 256 * FP_ONE);
    proof {
        lemma_tdiv_abs(g as int, FP_ONE as int);
        lemma_div_is_ordered(g as int, 255_744_000, FP_ONE as int);
        lemma_div_pos_is_pos(g as int, FP_ONE as int);
    }
    ((g as u128) / (FP_ONE as u128)) as u8
}

#[derive(Clone, Copy, Debug, PartialEq, Eq, Structural)]
pub struct Rgb8 {
    pub r: u8,
    pub g: u8,
    pub b: u8,
}

} // verus!
