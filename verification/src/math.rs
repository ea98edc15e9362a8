//! Scalar fixed-point arithmetic: truncating division, scaling by a rational
//! weight, and the integer square root the speed clamp relies on.

use vstd::prelude::*;

verus! {

/// Round-toward-zero division.  Machine division on `i64` rounds toward zero,
/// while `int` division in specifications is Euclidean; every contract in this
/// crate that divides goes through this function so the two cannot be mixed up.
pub open spec fn div_trunc(a: int, d: int) -> int
    recommends
        d >= 1,
{
    if a >= 0 {
        a / d
    } else {
        -((-a) / d)
    }
}

/// Floor of the square root of a non-negative integer (0 on negative input).
pub open spec fn sqrt_floor(n: int) -> int
    decreases n,
{
    if n <= 0 {
        0
    } else {
        let s = sqrt_floor(n - 1);
        if (s + 1) * (s + 1) <= n {
            s + 1
        } else {
            s
        }
    }
}

/// `sqrt_floor(n)` really is the floor of the square root of `n`.
pub proof fn lemma_sqrt_floor(n: int)
    requires
        0 <= n,
    ensures
        0 <= sqrt_floor(n),
        sqrt_floor(n) * sqrt_floor(n) <= n,
        n < (sqrt_floor(n) + 1) * (sqrt_floor(n) + 1),
    decreases n,
{
    if n <= 0 {
    } else {
        lemma_sqrt_floor(n - 1);
        let s = sqrt_floor(n - 1);
        if (s + 1) * (s + 1) <= n {
            assert(sqrt_floor(n) == s + 1);
            assert(n < (s + 2) * (s + 2)) by (nonlinear_arith)
                requires
                    n - 1 < (s + 1) * (s + 1),
                    0 <= s,
            ;
        } else {
            assert(sqrt_floor(n) == s);
        }
    }
}

/// Two integers whose squares bracket `n` the same way are equal; used to tie
/// the binary-search result of `isqrt` back to `sqrt_floor`.
pub proof fn lemma_sqrt_floor_unique(n: int, r: int)
    requires
        0 <= r,
        r * r <= n,
        n < (r + 1) * (r + 1),
    ensures
        r == sqrt_floor(n),
{
    lemma_sqrt_floor(n);
    let s = sqrt_floor(n);
    assert(r == s) by (nonlinear_arith)
        requires
            r * r <= n,
            n < (r + 1) * (r + 1),
            s * s <= n,
            n < (s + 1) * (s + 1),
            0 <= r,
            0 <= s,
    ;
}

/// Magnitude bound for truncating division: if `|a| <= b * d` then
/// `|a / d| <= b`.
pub proof fn lemma_div_trunc_bound(a: int, d: int, b: int)
    requires
        1 <= d,
        0 <= b,
        -(b * d) <= a,
        a <= b * d,
    ensures
        -b <= div_trunc(a, d),
        div_trunc(a, d) <= b,
{
    if a >= 0 {
        assert(0 <= a / d && a / d <= b) by (nonlinear_arith)
            requires
                1 <= d,
                0 <= a,
                a <= b * d,
                0 <= b,
        ;
    } else {
        assert(0 <= (-a) / d && (-a) / d <= b) by (nonlinear_arith)
            requires
                1 <= d,
                0 <= -a,
                -a <= b * d,
                0 <= b,
        ;
    }
}

/// `|a * b| <= ab * bb` whenever `|a| <= ab` and `|b| <= bb`.
pub proof fn lemma_abs_mul_bound(a: int, b: int, ab: int, bb: int)
    by (nonlinear_arith)
    requires
        -ab <= a <= ab,
        -bb <= b <= bb,
        0 <= ab,
        0 <= bb,
    ensures
        -(ab * bb) <= a * b <= ab * bb,
{
}

/// A square is never negative.
pub proof fn lemma_square_nonneg(a: int)
    by (nonlinear_arith)
    ensures
        0 <= a * a,
{
}

/// Truncating division is odd: negating the numerator negates the quotient.
pub proof fn lemma_div_trunc_neg(a: int, d: int)
    requires
        1 <= d,
    ensures
        div_trunc(-a, d) == -div_trunc(a, d),
{
}

/// Dividing an exact multiple is exact.
pub proof fn lemma_div_trunc_exact(x: int, n: int)
    requires
        1 <= n,
    ensures
        div_trunc(x * n, n) == x,
{
    if x >= 0 {
        assert((x * n) / n == x && x * n >= 0) by (nonlinear_arith)
            requires
                1 <= n,
                0 <= x,
        ;
    } else {
        assert(((-(x * n)) / n == -x) && x * n < 0) by (nonlinear_arith)
            requires
                1 <= n,
                x < 0,
        ;
    }
}

/// Squared upper bound of a truncating quotient: `q² d² <= a²`.
pub proof fn lemma_div_sq_le(a: int, d: int, q: int)
    by (nonlinear_arith)
    requires
        1 <= d,
        q == (if a >= 0 { a / d } else { -((-a) / d) }),
    ensures
        q * q * (d * d) <= a * a,
{
}

/// Squared lower bound of a truncating quotient: the loss is at most
/// `2 (d-1) |a|`.
pub proof fn lemma_div_sq_ge(a: int, d: int, q: int)
    by (nonlinear_arith)
    requires
        1 <= d,
        q == (if a >= 0 { a / d } else { -((-a) / d) }),
    ensures
        a * a - 2 * (d - 1) * (if a >= 0 { a } else { -a }) <= q * q * (d * d),
{
}

/// Comparing squares bounds the magnitude: `a*a <= b*b` with `b >= 0` gives
/// `|a| <= b`.
pub proof fn lemma_abs_le_of_sq_le(a: int, b: int)
    by (nonlinear_arith)
    requires
        a * a <= b * b,
        0 <= b,
    ensures
        -b <= a <= b,
{
}

/// Strict variant: `a*a < b*b` with `b >= 0` gives `|a| < b`.
pub proof fn lemma_abs_lt_of_sq_lt(a: int, b: int)
    by (nonlinear_arith)
    requires
        a * a < b * b,
        0 <= b,
    ensures
        -b < a < b,
{
}

/// Scaling a bounded value by a weight that is at most `ratio` as a rational
/// keeps it within `ratio` times the bound.
pub proof fn lemma_scaled_bound(v: int, num: int, den: int, vmax: int, ratio: int)
    requires
        -vmax <= v <= vmax,
        0 <= vmax,
        0 <= num,
        1 <= den,
        0 <= ratio,
        num <= ratio * den,
    ensures
        -(ratio * vmax) <= div_trunc(v * num, den) <= ratio * vmax,
{
    lemma_abs_mul_bound(v, num, vmax, num);
    assert(vmax * num <= (ratio * vmax) * den) by (nonlinear_arith)
        requires
            num <= ratio * den,
            0 <= vmax,
            0 <= num,
            0 <= ratio,
            1 <= den,
    ;
    lemma_div_trunc_bound(v * num, den, ratio * vmax);
}

/// Floor of the square root, by binary search on `[0, 2^32]`.
pub fn isqrt(n: u64) -> (r: u64)
    ensures
        r == sqrt_floor(n as int),
        r * r <= n,
        n < (r + 1) * (r + 1),
{
    let mut lo: u64 = 0;
    let mut hi: u64 = 0x1_0000_0000;
    while lo + 1 < hi
        invariant
            lo < hi <= 0x1_0000_0000,
            (lo as int) * (lo as int) <= n as int,
            (n as int) < (hi as int) * (hi as int),
        decreases hi - lo,
    {
        let mid: u64 = lo + (hi - lo) / 2;
        proof {
            assert((mid as int) * (mid as int) < 0x1_0000_0000_0000_0000) by (nonlinear_arith)
                requires
                    mid < 0x1_0000_0000,
                    0 <= mid,
            ;
        }
        if mid * mid <= n {
            lo = mid;
        } else {
            hi = mid;
        }
    }
    proof {
        lemma_sqrt_floor_unique(n as int, lo as int);
    }
    lo
}

/// Truncating division on machine integers.
pub fn div_trunc_i64(a: i64, d: i64) -> (r: i64)
    requires
        1 <= d,
        i64::MIN < a,
    ensures
        r == div_trunc(a as int, d as int),
{
    if a >= 0 {
        proof {
            assert((a as int) / (d as int) <= a as int && 0 <= (a as int) / (d as int))
                by (nonlinear_arith)
                requires
                    1 <= d as int,
                    0 <= a as int,
            ;
        }
        let q: u64 = (a as u64) / (d as u64);
        q as i64
    } else {
        proof {
            assert(((-(a as int)) / (d as int)) <= -(a as int) && 0 <= (-(a as int)) / (d as int))
                by (nonlinear_arith)
                requires
                    1 <= d as int,
                    0 <= -(a as int),
            ;
        }
        let q: u64 = ((-a) as u64) / (d as u64);
        -(q as i64)
    }
}

/// Scale `v` by the rational weight `num / den`, rounding toward zero.
pub fn mul_div(v: i64, num: i64, den: i64) -> (r: i64)
    requires
        0 <= num,
        1 <= den,
        -0x7fff_ffff_ffff_ffff <= (v as int) * (num as int),
        (v as int) * (num as int) <= 0x7fff_ffff_ffff_ffff,
    ensures
        r == div_trunc((v as int) * (num as int), den as int),
{
    let p: i64 = v * num;
    div_trunc_i64(p, den)
}

} // verus!
