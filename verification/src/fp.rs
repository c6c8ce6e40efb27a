//! Fixed-point scalars.
//!
//! A scalar is an `i128` counting units of `1 / FP_ONE`.  Multiplication,
//! division and square root round toward zero; the spec functions `fmul`,
//! `fdiv` and `fsqrt` state each result exactly as a mathematical integer.

use vstd::prelude::*;
use vstd::arithmetic::div_mod::*;
use vstd::arithmetic::mul::*;

verus! {

/// Number of fixed-point units in 1.0.
pub const FP_ONE: i128 = 1_000_000;

/// Magnitude of an integer.
pub open spec fn iabs(a: int) -> int {
    if a >= 0 {
        a
    } else {
        -a
    }
}

/// Division rounding toward zero, the rounding rule of every fixed-point
/// operation in this library.
pub open spec fn tdiv(a: int, b: int) -> int {
    if (a >= 0) == (b >= 0) {
        iabs(a) / iabs(b)
    } else {
        -(iabs(a) / iabs(b))
    }
}

/// Product of two fixed-point scalars.
pub open spec fn fmul(a: int, b: int) -> int {
    tdiv(a * b, FP_ONE as int)
}

/// Quotient of two fixed-point scalars.
pub open spec fn fdiv(a: int, b: int) -> int {
    tdiv(a * FP_ONE, b)
}

/// `r` is the integer square root of `n`.
pub open spec fn is_sqrt(n: int, r: int) -> bool {
    &&& r >= 0
    &&& r * r <= n
    &&& n < (r + 1) * (r + 1)
}

/// Square root of a nonnegative fixed-point scalar.
pub open spec fn fsqrt(x: int) -> int {
    choose|r: int| #[trigger] is_sqrt(x * FP_ONE, r)
}

/// Magnitude of an `i128`, without overflow at the minimum value.
pub fn abs_u128(a: i128) -> (r: u128)
    ensures
        r == iabs(a as int),
{
    if a >= 0 {
        a as u128
    } else {
        ((-(a + 1)) as u128) + 1
    }
}

pub proof fn lemma_abs_mul(a: int, b: int)
    ensures
        iabs(a * b) == iabs(a) * iabs(b),
{
    assert(iabs(a * b) == iabs(a) * iabs(b)) by (nonlinear_arith);
}

/// Fixed-point product.
pub fn fp_mul(a: i128, b: i128) -> (r: i128)
    requires
        iabs((a as int) * (b as int)) <= u128::MAX,
    ensures
        r == fmul(a as int, b as int),
{
    let neg = (a < 0) != (b < 0);
    let am = abs_u128(a);
    let bm = abs_u128(b);
    proof {
        lemma_abs_mul(a as int, b as int);
    }
    let p = am * bm;
    let q = p / (FP_ONE as u128);
    proof {
        assert(a < 0 && b < 0 ==> (a as int) * (b as int) >= 0) by (nonlinear_arith);
        assert(a >= 0 && b >= 0 ==> (a as int) * (b as int) >= 0) by (nonlinear_arith);
        assert(a < 0 && b >= 0 ==> (a as int) * (b as int) <= 0) by (nonlinear_arith);
        assert(a >= 0 && b < 0 ==> (a as int) * (b as int) <= 0) by (nonlinear_arith);
        assert(q <= p);
    }
    if neg {
        -(q as i128)
    } else {
        q as i128
    }
}

/// Fixed-point quotient.
pub fn fp_div(a: i128, b: i128) -> (r: i128)
    requires
        b != 0,
        iabs(a as int) * (FP_ONE as int) <= u128::MAX,
        iabs(a as int) * (FP_ONE as int) / iabs(b as int) <= i128::MAX,
    ensures
        r == fdiv(a as int, b as int),
{
    let neg = (a < 0) != (b < 0);
    let am = abs_u128(a);
    let bm = abs_u128(b);
    let p = am * (FP_ONE as u128);
    let q = p / bm;
    if neg {
        -(q as i128)
    } else {
        q as i128
    }
}

/// An integer has at most one integer square root.
pub proof fn lemma_sqrt_unique(n: int, r1: int, r2: int)
    requires
        is_sqrt(n, r1),
        is_sqrt(n, r2),
    ensures
        r1 == r2,
{
    assert(0 <= r1 < r2 ==> (r1 + 1) * (r1 + 1) <= r2 * r2) by (nonlinear_arith);
    assert(0 <= r2 < r1 ==> (r2 + 1) * (r2 + 1) <= r1 * r1) by (nonlinear_arith);
}

/// Every nonnegative integer has an integer square root.
pub proof fn lemma_sqrt_exists(n: int) -> (r: int)
    requires
        n >= 0,
    ensures
        is_sqrt(n, r),
    decreases n,
{
    if n == 0 {
        0
    } else {
        let p = lemma_sqrt_exists(n - 1);
        if (p + 1) * (p + 1) <= n {
            assert(n - 1 < (p + 1) * (p + 1));
            assert(p >= 0 ==> (p + 1) * (p + 1) + 1 <= ((p + 1) + 1) * ((p + 1) + 1))
                by (nonlinear_arith);
            assert(is_sqrt(n, p + 1));
            p + 1
        } else {
            assert(is_sqrt(n, p));
            p
        }
    }
}

/// `fsqrt` of a nonnegative scalar is its fixed-point square root.
pub proof fn lemma_fsqrt(x: int)
    requires
        x >= 0,
    ensures
        is_sqrt(x * FP_ONE, fsqrt(x)),
        fsqrt(x) >= 0,
{
    lemma_mul_nonnegative(x, FP_ONE as int);
    let r = lemma_sqrt_exists(x * FP_ONE);
    assert(is_sqrt(x * FP_ONE, r));
}

/// Integer square root by bisection.
pub fn isqrt_u128(n: u128) -> (r: u128)
    ensures
        is_sqrt(n as int, r as int),
        r <= 0xFFFF_FFFF_FFFF_FFFF,
{
    let mut lo: u128 = 0;
    let mut hi: u128 = 0xFFFF_FFFF_FFFF_FFFF;
    proof {
        assert((0xFFFF_FFFF_FFFF_FFFFint + 1) * (0xFFFF_FFFF_FFFF_FFFFint + 1) > u128::MAX);
    }
    while lo < hi
        invariant
            lo <= hi <= 0xFFFF_FFFF_FFFF_FFFF,
            (lo as int) * (lo as int) <= n,
            n < ((hi as int) + 1) * ((hi as int) + 1),
        decreases hi - lo,
    {
        let mid = lo + (hi - lo + 1) / 2;
        if mid <= n / mid {
            proof {
                lemma_fundamental_div_mod(n as int, mid as int);
                lemma_mul_inequality(mid as int, (n as int) / (mid as int), mid as int);
            }
            lo = mid;
        } else {
            proof {
                lemma_fundamental_div_mod(n as int, mid as int);
                lemma_mul_inequality((n as int) / (mid as int), (mid as int) - 1, mid as int);
                assert(((mid as int) - 1) * (mid as int) == (mid as int) * (mid as int) - (mid as int))
                    by (nonlinear_arith);
            }
            hi = mid - 1;
        }
    }
    lo
}

/// Square root of a nonnegative fixed-point scalar.
pub fn fp_sqrt(x: i128) -> (r: i128)
    requires
        0 <= x,
        (x as int) * (FP_ONE as int) <= u128::MAX,
    ensures
        r == fsqrt(x as int),
        is_sqrt((x as int) * (FP_ONE as int), r as int),
        0 <= r <= 0xFFFF_FFFF_FFFF_FFFF,
{
    let n = (x as u128) * (FP_ONE as u128);
    let s = isqrt_u128(n);
    proof {
        assert(is_sqrt((x as int) * (FP_ONE as int), s as int));
        assert(is_sqrt((x as int) * (FP_ONE as int), fsqrt(x as int)));
        lemma_sqrt_unique((x as int) * (FP_ONE as int), s as int, fsqrt(x as int));
    }
    s as i128
}

/// The magnitude of a truncating quotient is the quotient of the magnitudes.
pub proof fn lemma_tdiv_abs(a: int, b: int)
    requires
        b != 0,
    ensures
        iabs(tdiv(a, b)) == iabs(a) / iabs(b),
        0 <= a && 0 < b ==> tdiv(a, b) == a / b,
{
    lemma_div_pos_is_pos(iabs(a), iabs(b));
}

/// Truncating division is monotone in the numerator for a positive divisor.
pub proof fn lemma_tdiv_mono(p: int, q: int, b: int)
    requires
        p <= q,
        b >= 1,
    ensures
        tdiv(p, b) <= tdiv(q, b),
{
    if p >= 0 {
        lemma_div_is_ordered(p, q, b);
    } else if q < 0 {
        lemma_div_is_ordered(-q, -p, b);
    } else {
        lemma_div_pos_is_pos(-p, b);
        lemma_div_pos_is_pos(q, b);
    }
}

/// Bound on a fixed-point product from bounds on its factors.
pub proof fn lemma_fmul_bound(a: int, b: int, bound_a: int, bound_b: int)
    requires
        iabs(a) <= bound_a,
        iabs(b) <= bound_b,
    ensures
        iabs(a * b) <= bound_a * bound_b,
        iabs(fmul(a, b)) <= bound_a * bound_b / (FP_ONE as int),
{
    lemma_abs_mul(a, b);
    lemma_mul_inequality(iabs(a), bound_a, iabs(b));
    lemma_mul_inequality(iabs(b), bound_b, bound_a);
    lemma_tdiv_abs(a * b, FP_ONE as int);
    lemma_div_is_ordered(iabs(a * b), bound_a * bound_b, FP_ONE as int);
}

/// Bound on a fixed-point quotient from a bound on the numerator and a
/// lower bound on the magnitude of the denominator.
pub proof fn lemma_fdiv_bound(a: int, b: int, bound_a: int, min_b: int)
    requires
        iabs(a) <= bound_a,
        iabs(b) >= min_b,
        min_b >= 1,
    ensures
        iabs(fdiv(a, b)) <= bound_a * (FP_ONE as int) / min_b,
{
    lemma_tdiv_abs(a * FP_ONE, b);
    lemma_abs_mul(a, FP_ONE as int);
    lemma_mul_inequality(iabs(a), bound_a, FP_ONE as int);
    lemma_div_is_ordered(iabs(a) * FP_ONE, bound_a * FP_ONE, iabs(b));
    lemma_div_is_ordered_by_denominator(bound_a * FP_ONE, min_b, iabs(b));
}

/// A product of scalars in `[0, 1]` stays in `[0, 1]` and below each factor.
pub proof fn lemma_fmul_unit_range(a: int, b: int)
    requires
        0 <= a <= FP_ONE,
        0 <= b <= FP_ONE,
    ensures
        0 <= fmul(a, b),
        fmul(a, b) <= a,
        fmul(a, b) <= b,
        fmul(a, b) <= FP_ONE,
{
    lemma_mul_nonnegative(a, b);
    lemma_tdiv_abs(a * b, FP_ONE as int);
    lemma_mul_inequality(b, FP_ONE as int, a);
    lemma_mul_inequality(a, FP_ONE as int, b);
    lemma_div_is_ordered(a * b, a * FP_ONE, FP_ONE as int);
    lemma_div_is_ordered(a * b, b * FP_ONE, FP_ONE as int);
    lemma_div_by_multiple(a, FP_ONE as int);
    lemma_div_by_multiple(b, FP_ONE as int);
}

/// Negating one factor negates a fixed-point product.
pub proof fn lemma_fmul_neg(a: int, b: int)
    ensures
        fmul(a, -b) == -fmul(a, b),
{
    assert(a * (-b) == -(a * b)) by (nonlinear_arith);
}

pub proof fn lemma_fmul_neg_left(a: int, b: int)
    ensures
        fmul(-a, b) == -fmul(a, b),
{
    assert((-a) * b == -(a * b)) by (nonlinear_arith);
}

/// The square of a scalar is nonnegative.
pub proof fn lemma_fmul_sq_nonneg(a: int)
    ensures
        fmul(a, a) >= 0,
{
    assert(a * a >= 0) by (nonlinear_arith);
    lemma_tdiv_abs(a * a, FP_ONE as int);
}

} // verus!
