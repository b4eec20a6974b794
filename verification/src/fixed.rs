//! Fixed-point scalar arithmetic.
//!
//! Every scalar in the model (a time in seconds, an error estimate, a vector
//! component) is an `i64` holding the quantity times [`SCALE`]. Wide
//! intermediates are computed in 128-bit integers and saturated back into the
//! symmetric `i64` range, so every operation is total.

use vstd::arithmetic::div_mod::{lemma_div_is_ordered, lemma_div_multiples_vanish};
use vstd::prelude::*;

verus! {

/// Number of raw units in 1.0; a scalar of one second holds `SCALE`.
pub const SCALE: i64 = 1_000_000_000;

/// Mathematical absolute value.
pub open spec fn abs_int(x: int) -> int {
    if x >= 0 {
        x
    } else {
        -x
    }
}

/// Saturation into the symmetric range `[-i64::MAX, i64::MAX]`.
///
/// The range is symmetric (it excludes `i64::MIN`) so that negating a
/// saturated value saturates to the negated value.
pub open spec fn sat64(x: int) -> int {
    if x > i64::MAX {
        i64::MAX as int
    } else if x < -(i64::MAX as int) {
        -(i64::MAX as int)
    } else {
        x
    }
}

/// Saturation into `[0, u64::MAX]`.
pub open spec fn sat_u64(x: int) -> int {
    if x > u64::MAX {
        u64::MAX as int
    } else if x < 0 {
        0
    } else {
        x
    }
}

/// Division truncating toward zero, as machine division does.
pub open spec fn tdiv(a: int, b: int) -> int {
    if (a >= 0) == (b >= 0) {
        abs_int(a) / abs_int(b)
    } else {
        -(abs_int(a) / abs_int(b))
    }
}

/// Fixed-point product: `a * b` rescaled, truncated toward zero.
pub open spec fn fxmul(a: int, b: int) -> int {
    tdiv(a * b, SCALE as int)
}

/// Fixed-point quotient: `a / b` rescaled, truncated toward zero.
pub open spec fn fxdiv(a: int, b: int) -> int {
    tdiv(a * (SCALE as int), b)
}

/// The integer square root, rounded down; zero for negative arguments.
pub open spec fn sqrt_floor(n: int) -> int
    decreases n,
{
    if n <= 0 {
        0
    } else if (sqrt_floor(n - 1) + 1) * (sqrt_floor(n - 1) + 1) <= n {
        sqrt_floor(n - 1) + 1
    } else {
        sqrt_floor(n - 1)
    }
}

/// `sqrt_floor(n)` is the largest integer whose square is at most `n`.
pub proof fn lemma_sqrt_floor_bounds(n: int)
    requires
        n >= 0,
    ensures
        sqrt_floor(n) >= 0,
        sqrt_floor(n) * sqrt_floor(n) <= n,
        n < (sqrt_floor(n) + 1) * (sqrt_floor(n) + 1),
    decreases n,
{
    if n == 0 {
        assert(sqrt_floor(0) == 0);
    } else {
        lemma_sqrt_floor_bounds(n - 1);
        let r = sqrt_floor(n - 1);
        if (r + 1) * (r + 1) <= n {
            assert(sqrt_floor(n) == r + 1);
            assert(n - 1 < (r + 1) * (r + 1));
            assert(n == (r + 1) * (r + 1));
            assert((r + 1) * (r + 1) < (r + 2) * (r + 2)) by (nonlinear_arith)
                requires
                    r >= 0,
            ;
        } else {
            assert(sqrt_floor(n) == r);
        }
    }
}

/// Any non-negative `r` with `r * r <= n < (r + 1) * (r + 1)` is `sqrt_floor(n)`.
pub proof fn lemma_sqrt_floor_unique(n: int, r: int)
    requires
        n >= 0,
        r >= 0,
        r * r <= n,
        n < (r + 1) * (r + 1),
    ensures
        r == sqrt_floor(n),
{
    lemma_sqrt_floor_bounds(n);
    let s = sqrt_floor(n);
    if s >= r + 1 {
        assert((r + 1) * (r + 1) <= s * s) by (nonlinear_arith)
            requires
                r >= 0,
                s >= r + 1,
        ;
    }
    if r >= s + 1 {
        assert((s + 1) * (s + 1) <= r * r) by (nonlinear_arith)
            requires
                s >= 0,
                r >= s + 1,
        ;
    }
}

/// A non-negative integer whose square is at most `n` is at most `sqrt_floor(n)`.
pub proof fn lemma_square_le_sqrt(x: int, n: int)
    requires
        n >= 0,
        x >= 0,
        x * x <= n,
    ensures
        x <= sqrt_floor(n),
{
    lemma_sqrt_floor_bounds(n);
    let s = sqrt_floor(n);
    if x >= s + 1 {
        assert((s + 1) * (s + 1) <= x * x) by (nonlinear_arith)
            requires
                s >= 0,
                x >= s + 1,
        ;
    }
}

/// The integer square root of a 128-bit value, by binary search.
pub fn isqrt_u128(n: u128) -> (r: u64)
    ensures
        r as int == sqrt_floor(n as int),
{
    let mut lo: u64 = 0;
    let mut hi: u64 = u64::MAX;
    proof {
        assert((n as int) < ((u64::MAX as int) + 1) * ((u64::MAX as int) + 1)) by (nonlinear_arith);
    }
    while lo < hi
        invariant
            lo <= hi,
            (lo as int) * (lo as int) <= n as int,
            (n as int) < ((hi as int) + 1) * ((hi as int) + 1),
        decreases hi - lo,
    {
        let mid: u64 = lo + (hi - lo) / 2 + 1;
        proof {
            assert((mid as int) * (mid as int) <= u128::MAX as int) by (nonlinear_arith)
                requires
                    0 <= mid <= u64::MAX,
            ;
        }
        let sq: u128 = (mid as u128) * (mid as u128);
        if sq <= n {
            lo = mid;
        } else {
            hi = mid - 1;
        }
    }
    proof {
        lemma_sqrt_floor_unique(n as int, lo as int);
    }
    lo
}

/// Saturate a wide intermediate into the symmetric `i64` range.
pub fn sat_to_i64(x: i128) -> (r: i64)
    ensures
        r as int == sat64(x as int),
{
    if x > i64::MAX as i128 {
        i64::MAX
    } else if x < -(i64::MAX as i128) {
        -i64::MAX
    } else {
        x as i64
    }
}

/// Saturate a wide non-negative intermediate into the `u64` range.
pub fn sat_to_u64(x: u128) -> (r: u64)
    ensures
        r as int == sat_u64(x as int),
{
    if x > u64::MAX as u128 {
        u64::MAX
    } else {
        x as u64
    }
}

/// Divide truncating toward zero, on a positive divisor.
pub fn tdiv_i128(a: i128, b: i128) -> (q: i128)
    requires
        b > 0,
        a > i128::MIN,
    ensures
        q as int == tdiv(a as int, b as int),
{
    if a >= 0 {
        ((a as u128) / (b as u128)) as i128
    } else {
        let m: u128 = ((-a) as u128) / (b as u128);
        -(m as i128)
    }
}

/// The magnitude of a truncated quotient is at most the quotient of magnitudes.
pub proof fn lemma_tdiv_bound(a: int, b: int, m: int)
    requires
        b > 0,
        abs_int(a) <= m,
    ensures
        abs_int(tdiv(a, b)) <= m / b,
{
    lemma_div_is_ordered(abs_int(a), m, b);
}

/// A quotient by a divisor at least one is no larger than the dividend.
pub proof fn lemma_div_le_dividend(a: int, b: int)
    requires
        a >= 0,
        b >= 1,
    ensures
        0 <= a / b <= a,
{
    assert(a / b >= 0) by (nonlinear_arith)
        requires
            a >= 0,
            b >= 1,
    ;
    assert(a / b <= a / 1) by {
        if b > 1 {
            assert(b * (a / b) <= a) by (nonlinear_arith)
                requires
                    a >= 0,
                    b >= 1,
            ;
            assert(a / b <= b * (a / b)) by (nonlinear_arith)
                requires
                    a / b >= 0,
                    b >= 1,
            ;
        }
    }
}

/// A numerator at most `c` times the divisor divides to at most `c`.
pub proof fn lemma_div_upper(a: int, b: int, c: int)
    requires
        b >= 1,
        c >= 0,
        0 <= a <= b * c,
    ensures
        a / b <= c,
{
    lemma_div_is_ordered(a, b * c, b);
    lemma_div_multiples_vanish(c, b);
}

/// Fixed-point product of two scalars, saturated.
pub fn fxmul_i64(a: i64, b: i64) -> (r: i64)
    ensures
        r as int == sat64(fxmul(a as int, b as int)),
{
    proof {
        assert(-(i128::MAX as int) <= (a as int) * (b as int) <= i128::MAX as int)
            by (nonlinear_arith)
            requires
                i64::MIN <= a <= i64::MAX,
                i64::MIN <= b <= i64::MAX,
        ;
    }
    let p: i128 = (a as i128) * (b as i128);
    let q = tdiv_i128(p, SCALE as i128);
    sat_to_i64(q)
}

/// Fixed-point quotient of a scalar by a positive scalar, saturated.
pub fn fxdiv_i64(a: i64, b: u64) -> (r: i64)
    requires
        b != 0,
    ensures
        r as int == sat64(fxdiv(a as int, b as int)),
{
    proof {
        assert(-(i128::MAX as int) <= (a as int) * (SCALE as int) <= i128::MAX as int)
            by (nonlinear_arith)
            requires
                i64::MIN <= a <= i64::MAX,
        ;
    }
    let p: i128 = (a as i128) * (SCALE as i128);
    let q = tdiv_i128(p, b as i128);
    sat_to_i64(q)
}

/// Saturating sum of two scalars.
pub fn sat_add_i64(a: i64, b: i64) -> (r: i64)
    ensures
        r as int == sat64(a as int + b as int),
{
    sat_to_i64(a as i128 + b as i128)
}

/// Saturating difference of two scalars.
pub fn sat_sub_i64(a: i64, b: i64) -> (r: i64)
    ensures
        r as int == sat64(a as int - b as int),
{
    sat_to_i64(a as i128 - b as i128)
}

} // verus!
