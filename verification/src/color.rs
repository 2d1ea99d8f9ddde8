//! RGB colours and quantization to 8-bit channels.
//!
//! A colour is a vector of fixed-point light intensities, unbounded until
//! quantization. Quantization optionally gamma-corrects (square root), then
//! saturates each channel into [0, 0.999] and scales by 256; the 0.999
//! ceiling keeps the channel value 256 from ever being emitted.

use vstd::prelude::*;
use crate::fixed::SCALE;
use crate::fixed::fmul;
use crate::fixed::fsqrt;
use crate::fixed::fx_mul;
use crate::fixed::fx_sqrt;
use crate::fixed::ix_div;
use crate::fixed::tdiv;
use crate::interval::Interval;
use crate::vec3::V3;
use crate::vec3::Vec3;
use crate::vec3::s_addv;
use crate::vec3::s_clampv;
use crate::vec3::s_divs;
use crate::vec3::s_in_range;
use crate::vec3::s_scalev;
use crate::vec3::VEC_ADD_RANGE;
use crate::vec3::VEC_MUL_RANGE;

verus! {

/// The quantization ceiling: 0.999 in fixed point.
pub const INTENSITY_MAX: i64 = 65470;

/// Colours within this range can always be quantized.
pub const COLOR_RANGE: i64 = 0x2000_0000_0000;

/// Linear-to-display gamma correction: the square root, with non-positive
/// intensities mapped to zero.
pub open spec fn s_gamma(x: int) -> int {
    if x > 0 {
        fsqrt(x)
    } else {
        0
    }
}

/// One channel quantized to an 8-bit value: optional gamma correction, then
/// saturation into [0, 0.999], then scaling by 256, truncated.
pub open spec fn s_quantize1(x: int, gamma: bool) -> int {
    let g = if gamma {
        s_gamma(x)
    } else {
        x
    };
    let c = if g < 0 {
        0
    } else if g > INTENSITY_MAX {
        INTENSITY_MAX as int
    } else {
        g
    };
    tdiv(256 * c, SCALE as int)
}

/// Componentwise product: one colour attenuated by another.
pub open spec fn s_attenuate(a: V3, b: V3) -> V3 {
    V3 { x: fmul(a.x, b.x), y: fmul(a.y, b.y), z: fmul(a.z, b.z) }
}

/// An RGB colour over fixed-point intensities.
#[derive(Clone, Copy, Debug, PartialEq, Eq, Structural)]
pub struct Color(pub Vec3);

impl View for Color {
    type V = V3;

    open spec fn view(&self) -> V3 {
        self.0@
    }
}

/// One channel quantized to an 8-bit value.
fn quantize1(x: i64, gamma: bool) -> (r: i32)
    requires
        -COLOR_RANGE <= x <= COLOR_RANGE,
    ensures
        r == s_quantize1(x as int, gamma),
        0 <= r <= 255,
{
    let g: i64 = if gamma {
        if x > 0 {
            fx_sqrt(x)
        } else {
            0
        }
    } else {
        x
    };
    let intensity = Interval::new(0, INTENSITY_MAX);
    let c = intensity.clamp(g);
    let v = ix_div(256 * c, SCALE);
    proof {
        crate::fixed::lemma_div_window(256 * c, SCALE as int);
    }
    v as i32
}

impl Color {
    pub fn new(r: i64, g: i64, b: i64) -> (c: Self)
        ensures
            c@ == (V3 { x: r as int, y: g as int, z: b as int }),
    {
        Self(Vec3::new(r, g, b))
    }

    pub fn r(&self) -> (v: i64)
        ensures
            v == self@.x,
    {
        self.0.x
    }

    pub fn g(&self) -> (v: i64)
        ensures
            v == self@.y,
    {
        self.0.y
    }

    pub fn b(&self) -> (v: i64)
        ensures
            v == self@.z,
    {
        self.0.z
    }

    /// Componentwise saturation into [min, max].
    pub fn clamp(&self, min: i64, max: i64) -> (r: Self)
        requires
            min <= max,
        ensures
            r@ == s_clampv(self@, min as int, max as int),
    {
        Self(self.0.clamp(min, max))
    }

    pub fn add(&self, o: &Color) -> (r: Self)
        requires
            s_in_range(self@, VEC_ADD_RANGE as int),
            s_in_range(o@, VEC_ADD_RANGE as int),
        ensures
            r@ == s_addv(self@, o@),
    {
        Self(self.0.add(&o.0))
    }

    /// In-place accumulation.
    pub fn add_assign(&mut self, o: &Color)
        requires
            s_in_range(old(self)@, VEC_ADD_RANGE as int),
            s_in_range(o@, VEC_ADD_RANGE as int),
        ensures
            final(self)@ == s_addv(old(self)@, o@),
    {
        self.0 = self.0.add(&o.0);
    }

    /// Scale every channel by a fixed-point scalar.
    pub fn mul(&self, k: i64) -> (r: Self)
        requires
            s_in_range(self@, VEC_MUL_RANGE as int),
            -VEC_MUL_RANGE <= k <= VEC_MUL_RANGE,
        ensures
            r@ == s_scalev(k as int, self@),
    {
        Self(self.0.scale(k))
    }

    /// Divide every channel by a fixed-point scalar.
    pub fn div(&self, k: i64) -> (r: Self)
        requires
            k != 0,
            k > i64::MIN,
            s_in_range(self@, 0x4000_0000_0000),
        ensures
            r@ == s_divs(self@, k as int),
    {
        Self(self.0.div_s(k))
    }

    /// Attenuate this colour componentwise by another.
    pub fn attenuate(&self, o: &Color) -> (r: Self)
        requires
            s_in_range(self@, VEC_MUL_RANGE as int),
            s_in_range(o@, VEC_MUL_RANGE as int),
        ensures
            r@ == s_attenuate(self@, o@),
    {
        Self(Vec3::new(
            fx_mul(self.0.x, o.0.x),
            fx_mul(self.0.y, o.0.y),
            fx_mul(self.0.z, o.0.z),
        ))
    }

    /// Quantize to integer RGB channels, each in [0, 255]. With `gamma` the
    /// channels are gamma-corrected before the clamp — the order matters:
    /// correction first, then the 0.999 saturation, then the scaling by 256.
    pub fn to_rgb_i32(&self, gamma: bool) -> (rgb: (i32, i32, i32))
        requires
            s_in_range(self@, COLOR_RANGE as int),
        ensures
            rgb.0 == s_quantize1(self@.x, gamma),
            rgb.1 == s_quantize1(self@.y, gamma),
            rgb.2 == s_quantize1(self@.z, gamma),
            0 <= rgb.0 <= 255,
            0 <= rgb.1 <= 255,
            0 <= rgb.2 <= 255,
    {
        (quantize1(self.0.x, gamma), quantize1(self.0.y, gamma), quantize1(self.0.z, gamma))
    }

    pub fn to_vec3(&self) -> (v: Vec3)
        ensures
            v@ == self@,
    {
        self.0
    }

    pub fn of_vec3(v: Vec3) -> (c: Self)
        ensures
            c@ == v@,
    {
        Self(v)
    }
}

impl From<Vec3> for Color {
    fn from(v: Vec3) -> (c: Self) {
        Self(v)
    }
}

impl vstd::std_specs::convert::FromSpecImpl<Vec3> for Color {
    open spec fn obeys_from_spec() -> bool {
        true
    }

    open spec fn from_spec(v: Vec3) -> Self {
        Color(v)
    }
}

impl From<Color> for Vec3 {
    fn from(c: Color) -> (v: Self) {
        c.0
    }
}

impl vstd::std_specs::convert::FromSpecImpl<Color> for Vec3 {
    open spec fn obeys_from_spec() -> bool {
        true
    }

    open spec fn from_spec(c: Color) -> Self {
        c.0
    }
}

} // verus!
