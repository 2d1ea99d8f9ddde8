//! Fixed-point scalar arithmetic.
//!
//! A scalar is an `i64` holding the real value times `SCALE`. Multiplication
//! and division truncate toward zero, as the underlying machine division
//! does; `tdiv` is the spec-level account of that truncation, and `fmul`,
//! `fdiv` and `fsqrt` are the spec-level accounts of the three executable
//! operations.

use vstd::prelude::*;

verus! {

/// One whole unit: the fixed-point representation of 1.0.
pub const SCALE: i64 = 65536;

/// Magnitude of an integer.
pub open spec fn mag(a: int) -> int {
    if a >= 0 {
        a
    } else {
        -a
    }
}

/// Division truncated toward zero (the machine's signed division), for a
/// nonzero divisor. Spec-level `/` is Euclidean, so truncation is expressed
/// through magnitudes.
pub open spec fn tdiv(a: int, b: int) -> int {
    if (a >= 0) == (b >= 0) {
        mag(a) / mag(b)
    } else {
        -(mag(a) / mag(b))
    }
}

/// Fixed-point product: the scaled, truncated product of two scalars.
pub open spec fn fmul(a: int, b: int) -> int {
    tdiv(a * b, SCALE as int)
}

/// Fixed-point quotient of two scalars.
pub open spec fn fdiv(a: int, b: int) -> int {
    tdiv(a * SCALE, b)
}

/// Integer square root: the greatest `r` with `r * r <= n` (0 for `n <= 0`).
pub open spec fn isqrt(n: int) -> int
    decreases n,
{
    if n <= 0 {
        0
    } else {
        let r = isqrt(n - 1);
        if (r + 1) * (r + 1) <= n {
            r + 1
        } else {
            r
        }
    }
}

/// Fixed-point square root of a scalar.
pub open spec fn fsqrt(x: int) -> int {
    isqrt(x * SCALE)
}

/// The magnitude of a product is the product of the magnitudes, and the
/// product's side of zero follows the factors' sides.
pub proof fn lemma_mul_mag(a: int, b: int)
    ensures
        mag(a * b) == mag(a) * mag(b),
        a >= 0 && b >= 0 ==> a * b >= 0,
        a <= 0 && b <= 0 ==> a * b >= 0,
        a >= 0 && b <= 0 ==> a * b <= 0,
        a <= 0 && b >= 0 ==> a * b <= 0,
{
    let ma = mag(a);
    let mb = mag(b);
    if a >= 0 && b >= 0 {
        assert(a * b >= 0 && a * b == ma * mb) by (nonlinear_arith)
            requires
                a >= 0,
                b >= 0,
                ma == a,
                mb == b,
        ;
    } else if a >= 0 && b < 0 {
        assert(a * b <= 0 && -(a * b) == ma * mb) by (nonlinear_arith)
            requires
                a >= 0,
                b < 0,
                ma == a,
                mb == -b,
        ;
    } else if a < 0 && b >= 0 {
        assert(a * b <= 0 && -(a * b) == ma * mb) by (nonlinear_arith)
            requires
                a < 0,
                b >= 0,
                ma == -a,
                mb == b,
        ;
    } else {
        assert(a * b >= 0 && a * b == ma * mb) by (nonlinear_arith)
            requires
                a < 0,
                b < 0,
                ma == -a,
                mb == -b,
        ;
    }
    if a == 0 || b == 0 {
        assert(a * b == 0) by (nonlinear_arith)
            requires
                a == 0 || b == 0,
        ;
    }
}

/// Basic facts of Euclidean division by a positive divisor of a nonnegative
/// dividend.
pub proof fn lemma_div_window(m: int, b: int)
    requires
        m >= 0,
        b > 0,
    ensures
        m / b >= 0,
        b * (m / b) <= m < b * (m / b) + b,
        (m / b) * b <= m,
{
    vstd::arithmetic::div_mod::lemma_div_pos_is_pos(m, b);
    vstd::arithmetic::div_mod::lemma_fundamental_div_mod(m, b);
    vstd::arithmetic::div_mod::lemma_remainder_lower(m, b);
    vstd::arithmetic::div_mod::lemma_remainder_upper(m, b);
    assert((m / b) * b == b * (m / b)) by (nonlinear_arith);
}

/// Truncated division leaves a remainder smaller than the divisor, on the
/// dividend's side of zero.
pub proof fn lemma_tdiv(a: int, b: int)
    requires
        b > 0,
    ensures
        a >= 0 ==> 0 <= tdiv(a, b) && b * tdiv(a, b) <= a < b * tdiv(a, b) + b,
        a <= 0 ==> tdiv(a, b) <= 0 && b * tdiv(a, b) - b < a <= b * tdiv(a, b),
        mag(tdiv(a, b)) * b <= mag(a),
{
    if a >= 0 {
        lemma_div_window(a, b);
    } else {
        let m = -a;
        lemma_div_window(m, b);
        assert(b * tdiv(a, b) == -(b * (m / b))) by (nonlinear_arith)
            requires
                tdiv(a, b) == -(m / b),
        ;
        assert(mag(tdiv(a, b)) * b == b * (m / b)) by (nonlinear_arith)
            requires
                mag(tdiv(a, b)) == m / b,
        ;
        assert(b * (m / b) <= m);
    }
}

/// Truncated division is odd in its dividend.
pub proof fn lemma_tdiv_neg(a: int, b: int)
    requires
        b > 0,
    ensures
        tdiv(-a, b) == -tdiv(a, b),
{
}

/// A magnitude bound on a fixed-point product.
pub proof fn lemma_fmul_bound(a: int, b: int, ma: int, mb: int)
    requires
        mag(a) <= ma,
        mag(b) <= mb,
    ensures
        mag(fmul(a, b)) * SCALE <= ma * mb,
        mag(fmul(a, b)) <= ma * mb,
{
    lemma_mul_mag(a, b);
    lemma_tdiv(a * b, SCALE as int);
    assert(mag(a) * mag(b) <= ma * mb) by (nonlinear_arith)
        requires
            0 <= mag(a) <= ma,
            0 <= mag(b) <= mb,
    ;
    assert(mag(fmul(a, b)) * SCALE <= mag(a * b)) by {
        assert(mag(tdiv(a * b, SCALE as int)) * SCALE <= mag(a * b));
    }
    assert(mag(fmul(a, b)) <= ma * mb) by (nonlinear_arith)
        requires
            mag(fmul(a, b)) * SCALE <= ma * mb,
            SCALE >= 1,
            mag(fmul(a, b)) >= 0,
    ;
}

/// A scaled-down magnitude bound on a fixed-point product: if the operands'
/// magnitude product is at most `c` whole units, the product is at most `c`.
pub proof fn lemma_fmul_range(a: int, b: int, ma: int, mb: int, c: int)
    requires
        mag(a) <= ma,
        mag(b) <= mb,
        ma * mb <= c * SCALE,
    ensures
        mag(fmul(a, b)) <= c,
        -c <= fmul(a, b) <= c,
{
    lemma_fmul_bound(a, b, ma, mb);
    assert(mag(fmul(a, b)) <= c) by (nonlinear_arith)
        requires
            mag(fmul(a, b)) * SCALE <= ma * mb,
            ma * mb <= c * SCALE,
            SCALE > 0,
    ;
}

/// Fixed-point multiplication is commutative.
pub proof fn lemma_fmul_comm(a: int, b: int)
    ensures
        fmul(a, b) == fmul(b, a),
{
    assert(a * b == b * a) by (nonlinear_arith);
}

/// The square of a scalar is nonnegative.
pub proof fn lemma_fmul_self_nonneg(a: int)
    ensures
        fmul(a, a) >= 0,
{
    assert(a * a >= 0) by (nonlinear_arith);
    lemma_tdiv(a * a, SCALE as int);
}

/// A product of unit-interval scalars stays in the unit interval; one whole
/// unit is the multiplicative identity.
pub proof fn lemma_fmul_unit(a: int, b: int)
    requires
        0 <= a <= SCALE,
        0 <= b <= SCALE,
    ensures
        0 <= fmul(a, b) <= SCALE,
        b == SCALE ==> fmul(a, b) == a,
{
    lemma_mul_mag(a, b);
    lemma_tdiv(a * b, SCALE as int);
    lemma_fmul_bound(a, b, SCALE as int, SCALE as int);
    assert(mag(fmul(a, b)) * SCALE <= SCALE * SCALE);
    assert(mag(fmul(a, b)) <= SCALE) by (nonlinear_arith)
        requires
            mag(fmul(a, b)) * SCALE <= SCALE * SCALE,
            SCALE > 0,
    ;
    if b == SCALE {
        assert(a * SCALE == SCALE * a) by (nonlinear_arith);
        vstd::arithmetic::div_mod::lemma_div_multiples_vanish(a, SCALE as int);
    }
}

/// `isqrt` really is the floor of the square root.
pub proof fn lemma_isqrt(n: int)
    ensures
        isqrt(n) >= 0,
        isqrt(n) * isqrt(n) <= mag(n),
        n < (isqrt(n) + 1) * (isqrt(n) + 1),
    decreases n,
{
    if n <= 0 {
    } else {
        lemma_isqrt(n - 1);
        let r = isqrt(n - 1);
        if (r + 1) * (r + 1) <= n {
            assert(n < (r + 2) * (r + 2)) by (nonlinear_arith)
                requires
                    n - 1 < (r + 1) * (r + 1),
                    r >= 0,
            ;
        }
    }
}

/// Any `r` in the floor-square-root window equals `isqrt(n)`.
pub proof fn lemma_isqrt_unique(n: int, r: int)
    requires
        r >= 0,
        r * r <= n,
        n < (r + 1) * (r + 1),
    ensures
        r == isqrt(n),
{
    lemma_isqrt(n);
    let q = isqrt(n);
    if q < r {
        assert((q + 1) * (q + 1) <= r * r) by (nonlinear_arith)
            requires
                0 <= q,
                q + 1 <= r,
        ;
    }
    if r < q {
        assert((r + 1) * (r + 1) <= q * q) by (nonlinear_arith)
            requires
                0 <= r,
                r + 1 <= q,
        ;
        assert(q * q <= mag(n));
    }
}

/// `isqrt` never exceeds a known square root bound.
pub proof fn lemma_isqrt_le(n: int, b: int)
    requires
        n <= b * b,
        b >= 0,
    ensures
        isqrt(n) <= b,
        isqrt(n) >= 0,
{
    lemma_isqrt(n);
    if isqrt(n) > b {
        assert((b + 1) * (b + 1) <= isqrt(n) * isqrt(n)) by (nonlinear_arith)
            requires
                0 <= b + 1 <= isqrt(n),
        ;
        assert(n < (b + 1) * (b + 1)) by (nonlinear_arith)
            requires
                n <= b * b,
                b >= 0,
        ;
        assert(isqrt(n) * isqrt(n) <= mag(n));
    }
}

/// `isqrt` is at least any known lower square root bound.
pub proof fn lemma_isqrt_ge(n: int, b: int)
    requires
        b >= 0,
        b * b <= n,
    ensures
        isqrt(n) >= b,
{
    lemma_isqrt(n);
    if isqrt(n) < b {
        assert((isqrt(n) + 1) * (isqrt(n) + 1) <= b * b) by (nonlinear_arith)
            requires
                0 <= isqrt(n) + 1 <= b,
        ;
    }
}

/// Truncated unsigned division of two `u128` values, exact per `tdiv`.
fn udiv(a: u128, b: u128) -> (r: u128)
    requires
        b > 0,
    ensures
        r == tdiv(a as int, b as int),
{
    a / b
}

/// Executable fixed-point product. The bound on the operands' product keeps
/// the intermediate inside `u128` and the result inside `i64`.
pub fn fx_mul(a: i64, b: i64) -> (r: i64)
    requires
        -0x80_0000_0000 <= a <= 0x80_0000_0000,
        -0x80_0000_0000 <= b <= 0x80_0000_0000,
    ensures
        r == fmul(a as int, b as int),
{
    let ghost p: int = (a as int) * (b as int);
    let neg: bool = (a < 0) != (b < 0);
    let ma: u128 = (if a < 0 { -a } else { a }) as u128;
    let mb: u128 = (if b < 0 { -b } else { b }) as u128;
    proof {
        lemma_mul_mag(a as int, b as int);
        assert(mag(a as int) * mag(b as int) <= 0x4000_0000_0000_0000_0000) by (nonlinear_arith)
            requires
                0 <= mag(a as int) <= 0x80_0000_0000,
                0 <= mag(b as int) <= 0x80_0000_0000,
        ;
        assert(ma * mb == mag(p)) by (nonlinear_arith)
            requires
                ma == mag(a as int),
                mb == mag(b as int),
                mag(p) == mag(a as int) * mag(b as int),
        ;
    }
    let q: u128 = udiv(ma * mb, 65536u128);
    proof {
        lemma_tdiv(mag(p), SCALE as int);
        lemma_tdiv(p, SCALE as int);
        assert(q == mag(p) / (SCALE as int));
        assert(q * SCALE <= mag(p)) by (nonlinear_arith)
            requires
                q == mag(p) / (SCALE as int),
                SCALE * (mag(p) / (SCALE as int)) <= mag(p),
        ;
        assert(q <= 0x4000_0000_0000_0000) by (nonlinear_arith)
            requires
                q * SCALE <= 0x4000_0000_0000_0000_0000,
                SCALE == 65536,
                q >= 0,
        ;
        if p >= 0 {
            assert(fmul(a as int, b as int) == mag(p) / (SCALE as int));
        } else {
            assert(fmul(a as int, b as int) == -(mag(p) / (SCALE as int)));
        }
    }
    if neg {
        proof {
            assert(p <= 0);
            if p == 0 {
                assert(mag(p) / (SCALE as int) == 0);
            }
        }
        -(q as i64)
    } else {
        proof {
            assert(p >= 0);
        }
        q as i64
    }
}

/// Executable truncated division of a scalar by a raw integer count.
pub fn ix_div(a: i64, n: i64) -> (r: i64)
    requires
        a > i64::MIN,
        n >= 1,
    ensures
        r == tdiv(a as int, n as int),
        mag(r as int) <= mag(a as int),
{
    let neg: bool = a < 0;
    let ma: u128 = (if a < 0 { -a } else { a }) as u128;
    let q: u128 = udiv(ma, n as u128);
    proof {
        lemma_div_window(ma as int, n as int);
        assert((ma as int) / (n as int) <= ma as int) by (nonlinear_arith)
            requires
                n >= 1,
                ma >= 0,
                (n as int) * ((ma as int) / (n as int)) <= ma as int,
                (ma as int) / (n as int) >= 0,
        ;
        if neg {
            assert(tdiv(a as int, n as int) == -(q as int));
        }
    }
    if neg {
        -(q as i64)
    } else {
        q as i64
    }
}

/// Executable fixed-point quotient. The dividend bound keeps the scaled
/// dividend, and so the result, inside `i64`.
pub fn fx_div(a: i64, b: i64) -> (r: i64)
    requires
        b != 0,
        b > i64::MIN,
        -0x4000_0000_0000 <= a <= 0x4000_0000_0000,
    ensures
        r == fdiv(a as int, b as int),
{
    let ghost p: int = (a as int) * (SCALE as int);
    let neg: bool = (a < 0) != (b < 0);
    let ma: u128 = (if a < 0 { -a } else { a }) as u128;
    let mb: u128 = (if b < 0 { -b } else { b }) as u128;
    proof {
        lemma_mul_mag(a as int, SCALE as int);
        assert(ma * 65536 == mag(p)) by (nonlinear_arith)
            requires
                ma == mag(a as int),
                mag(p) == mag(a as int) * mag(SCALE as int),
                mag(SCALE as int) == 65536,
        ;
    }
    let q: u128 = udiv(ma * 65536, mb);
    proof {
        lemma_div_window(mag(p), mag(b as int));
        assert(q <= mag(p)) by (nonlinear_arith)
            requires
                q == mag(p) / mag(b as int),
                mag(b as int) >= 1,
                mag(b as int) * (mag(p) / mag(b as int)) <= mag(p),
                q >= 0,
        ;
        if neg {
            if p != 0 {
                assert(fdiv(a as int, b as int) == -(q as int));
            } else {
                assert(mag(p) / mag(b as int) == 0);
            }
        } else {
            assert((p >= 0) == (b as int >= 0) || p == 0);
            assert(fdiv(a as int, b as int) == q as int);
        }
    }
    if neg {
        -(q as i64)
    } else {
        q as i64
    }
}

/// Executable integer square root over `u128`, by bisection.
fn isqrt_u128(n: u128) -> (r: u128)
    requires
        n < 0x4000_0000_0000_0000_0000,
    ensures
        r == isqrt(n as int),
        r * r <= n,
        n < (r + 1) * (r + 1),
{
    let mut lo: u128 = 0;
    let mut hi: u128 = 0x80_0000_0000;
    proof {
        assert(n < (0x80_0000_0000u128 + 1) * (0x80_0000_0000u128 + 1)) by (nonlinear_arith)
            requires
                n < 0x4000_0000_0000_0000_0000,
        ;
    }
    while lo < hi
        invariant
            lo <= hi <= 0x80_0000_0000,
            lo * lo <= n,
            n < (hi + 1) * (hi + 1),
        decreases hi - lo,
    {
        let mid: u128 = lo + (hi - lo + 1) / 2;
        proof {
            lemma_div_window((hi - lo + 1) as int, 2);
            assert(lo < mid <= hi);
            assert(mid * mid <= 0x4000_0000_0000_0000_0000) by (nonlinear_arith)
                requires
                    mid <= 0x80_0000_0000u128,
            ;
        }
        if mid * mid <= n {
            lo = mid;
        } else {
            hi = mid - 1;
        }
    }
    proof {
        lemma_isqrt_unique(n as int, lo as int);
    }
    lo
}

/// Executable fixed-point square root of a nonnegative scalar.
pub fn fx_sqrt(x: i64) -> (r: i64)
    requires
        0 <= x < 0x4000_0000_0000_0000,
    ensures
        r == fsqrt(x as int),
        0 <= r <= 0x80_0000_0000,
{
    let n: u128 = (x as u128) * 65536;
    proof {
        assert(n == (x as int) * (SCALE as int)) by (nonlinear_arith)
            requires
                n == (x as u128) * 65536,
                x >= 0,
                SCALE == 65536,
        ;
        assert(n < 0x4000_0000_0000_0000_0000) by (nonlinear_arith)
            requires
                n == (x as u128) * 65536,
                0 <= x < 0x4000_0000_0000_0000,
        ;
    }
    let r: u128 = isqrt_u128(n);
    proof {
        assert(r * r <= n);
        assert(r <= 0x80_0000_0000) by (nonlinear_arith)
            requires
                r * r <= n,
                n < 0x4000_0000_0000_0000_0000,
        ;
    }
    r as i64
}

/// Truncated division is monotone in its dividend.
pub proof fn lemma_tdiv_mono(a1: int, a2: int, b: int)
    requires
        a1 <= a2,
        b > 0,
    ensures
        tdiv(a1, b) <= tdiv(a2, b),
{
    lemma_tdiv(a1, b);
    lemma_tdiv(a2, b);
    let t1 = tdiv(a1, b);
    let t2 = tdiv(a2, b);
    if t1 > t2 {
        if a1 >= 0 {
            assert(b * (t2 + 1) <= b * t1) by (nonlinear_arith)
                requires
                    t2 + 1 <= t1,
                    b > 0,
            ;
            assert(b * (t2 + 1) == b * t2 + b) by (nonlinear_arith);
        } else if a2 < 0 {
            assert(b * (t1 - 1) >= b * t2) by (nonlinear_arith)
                requires
                    t1 - 1 >= t2,
                    b > 0,
            ;
            assert(b * (t1 - 1) == b * t1 - b) by (nonlinear_arith);
        }
    }
}

/// Scaling by one whole unit cancels: multiplying or dividing a scalar by
/// `SCALE` in fixed point is the identity.
pub proof fn lemma_scale_cancel(c: int)
    ensures
        tdiv(c * SCALE, SCALE as int) == c,
        fmul(c, SCALE as int) == c,
        fmul(SCALE as int, c) == c,
        fdiv(c, SCALE as int) == c,
{
    lemma_mul_mag(c, SCALE as int);
    vstd::arithmetic::div_mod::lemma_div_multiples_vanish(mag(c), SCALE as int);
    assert(mag(c) * SCALE == SCALE * mag(c)) by (nonlinear_arith);
    assert(c * SCALE == SCALE * c) by (nonlinear_arith);
}

/// One truncated product is within one unit of the exact scaled product.
pub proof fn lemma_fmul_err(a: int, b: int)
    ensures
        mag(SCALE * fmul(a, b) - a * b) < SCALE,
{
    lemma_tdiv(a * b, SCALE as int);
}

} // verus!
