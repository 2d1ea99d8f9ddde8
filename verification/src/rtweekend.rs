//! Shared helpers: the random source and angle conversion.
//!
//! The random draws come from the `rand` crate through one trusted wrapper;
//! everything said about a draw beyond its type's range is proved, not
//! assumed.

use vstd::prelude::*;
use crate::fixed::SCALE;
use crate::fixed::fmul;
use crate::fixed::fx_mul;
use crate::fixed::ix_div;
use crate::fixed::lemma_tdiv;
use crate::fixed::lemma_mul_mag;
use crate::fixed::tdiv;

verus! {

/// Fixed-point value of pi.
pub const PI_FX: i64 = 205887;

/// Relies on rand::random::<u16>: a fresh 16-bit value, drawn uniformly by
/// the thread-local generator. Nothing is assumed of it beyond its type.
#[verifier::external_body]
fn random_u16() -> u16 {
    rand::random::<u16>()
}

/// A random scalar in [0, 1). The unit interval holds `SCALE` representable
/// steps, and the 16-bit draw picks one of them.
pub fn random_double() -> (r: i64)
    ensures
        0 <= r < SCALE,
{
    let d: u16 = random_u16();
    d as i64
}

/// A random scalar in [min, max), except that when the ends meet the single
/// point `min` is returned.
pub fn random_double_range(min: i64, max: i64) -> (r: i64)
    requires
        min <= max,
        -0x40_0000_0000 <= min,
        max <= 0x40_0000_0000,
    ensures
        min <= r <= max,
        min < max ==> r < max,
{
    let u = random_double();
    let span = max - min;
    let d = fx_mul(span, u);
    proof {
        lemma_mul_mag(span as int, u as int);
        lemma_tdiv((span as int) * (u as int), SCALE as int);
        assert(0 <= (span as int) * (u as int) <= span * (SCALE - 1)) by (nonlinear_arith)
            requires
                0 <= u < SCALE,
                span >= 0,
        ;
        assert(d >= 0);
        if span > 0 {
            assert(d < span) by (nonlinear_arith)
                requires
                    d == fmul(span as int, u as int),
                    (SCALE as int) * (d as int) <= (span as int) * (u as int),
                    (span as int) * (u as int) <= span * (SCALE - 1),
                    span > 0,
                    SCALE > 1,
            ;
        }
    }
    min + d
}

/// Degrees to radians: the angle times pi over 180, in fixed point.
pub fn degrees_to_radians(deg: i64) -> (r: i64)
    requires
        -0x8_0000_0000 <= deg <= 0x8_0000_0000,
    ensures
        r == tdiv(fmul(deg as int, PI_FX as int), 180),
{
    let p = fx_mul(deg, PI_FX);
    proof {
        crate::fixed::lemma_fmul_bound(deg as int, PI_FX as int, 0x8_0000_0000, PI_FX as int);
    }
    ix_div(p, 180)
}

} // verus!
