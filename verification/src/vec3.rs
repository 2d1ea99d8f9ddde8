//! 3D vectors over fixed-point scalars.
//!
//! `Vec3` is the executable value; `V3` is its spec-level image, with
//! unbounded integer components so that contracts can speak of arithmetic
//! without overflow caveats. Every operation's contract gives the exact
//! fixed-point result through the `s_*` spec functions.

use vstd::prelude::*;
use crate::fixed::SCALE;
use crate::fixed::fdiv;
use crate::fixed::fmul;
use crate::fixed::fsqrt;
use crate::fixed::fx_div;
use crate::fixed::fx_mul;
use crate::fixed::fx_sqrt;
use crate::fixed::ix_div;
use crate::fixed::lemma_fmul_bound;
use crate::fixed::lemma_fmul_range;
use crate::fixed::lemma_fmul_self_nonneg;
use crate::rtweekend::random_double;
use crate::rtweekend::random_double_range;
use crate::fixed::mag;
use crate::fixed::tdiv;

verus! {

/// Components this large can always be added without leaving `i64`.
pub const VEC_ADD_RANGE: i64 = 0x1000_0000_0000_0000;

/// Components this large can always be multiplied pairwise in fixed point.
pub const VEC_MUL_RANGE: i64 = 0x80_0000_0000;

/// Components this large admit dot products, cross products and lengths.
pub const VEC_DOT_RANGE: i64 = 0x40_0000_0000;

/// Normalized vectors are kept within two whole units per component.
pub const UNIT_RANGE: i64 = 131072;

/// Spec-level vector: the integer image of a `Vec3`.
pub struct V3 {
    pub x: int,
    pub y: int,
    pub z: int,
}

pub open spec fn s_zero() -> V3 {
    V3 { x: 0, y: 0, z: 0 }
}

pub open spec fn s_addv(a: V3, b: V3) -> V3 {
    V3 { x: a.x + b.x, y: a.y + b.y, z: a.z + b.z }
}

pub open spec fn s_subv(a: V3, b: V3) -> V3 {
    V3 { x: a.x - b.x, y: a.y - b.y, z: a.z - b.z }
}

pub open spec fn s_negv(a: V3) -> V3 {
    V3 { x: -a.x, y: -a.y, z: -a.z }
}

/// Scale by a fixed-point scalar.
pub open spec fn s_scalev(k: int, v: V3) -> V3 {
    V3 { x: fmul(k, v.x), y: fmul(k, v.y), z: fmul(k, v.z) }
}

/// Divide by a raw integer count.
pub open spec fn s_divn(v: V3, n: int) -> V3 {
    V3 { x: tdiv(v.x, n), y: tdiv(v.y, n), z: tdiv(v.z, n) }
}

/// Divide by a fixed-point scalar.
pub open spec fn s_divs(v: V3, k: int) -> V3 {
    V3 { x: fdiv(v.x, k), y: fdiv(v.y, k), z: fdiv(v.z, k) }
}

pub open spec fn s_dot(a: V3, b: V3) -> int {
    fmul(a.x, b.x) + fmul(a.y, b.y) + fmul(a.z, b.z)
}

pub open spec fn s_cross(a: V3, b: V3) -> V3 {
    V3 {
        x: fmul(a.y, b.z) - fmul(a.z, b.y),
        y: fmul(a.z, b.x) - fmul(a.x, b.z),
        z: fmul(a.x, b.y) - fmul(a.y, b.x),
    }
}

pub open spec fn s_len_sq(v: V3) -> int {
    s_dot(v, v)
}

pub open spec fn s_len(v: V3) -> int {
    fsqrt(s_len_sq(v))
}

pub open spec fn s_clamp1(x: int, lo: int, hi: int) -> int {
    if x < lo {
        lo
    } else if x > hi {
        hi
    } else {
        x
    }
}

pub open spec fn s_clampv(v: V3, lo: int, hi: int) -> V3 {
    V3 {
        x: s_clamp1(v.x, lo, hi),
        y: s_clamp1(v.y, lo, hi),
        z: s_clamp1(v.z, lo, hi),
    }
}

/// Normalization. A zero-length vector (at this resolution) maps to zero;
/// otherwise each component is divided by the length and, as a guard against
/// truncation noise on badly scaled inputs, clamped to two whole units.
pub open spec fn s_unit(v: V3) -> V3 {
    if s_len(v) <= 0 {
        s_zero()
    } else {
        s_clampv(s_divs(v, s_len(v)), -UNIT_RANGE as int, UNIT_RANGE as int)
    }
}

pub open spec fn s_in_range(v: V3, m: int) -> bool {
    &&& -m <= v.x <= m
    &&& -m <= v.y <= m
    &&& -m <= v.z <= m
}

/// At fixed-point resolution, "all components below 1e-8" means exactly zero.
pub open spec fn s_near_zero(v: V3) -> bool {
    v.x == 0 && v.y == 0 && v.z == 0
}

/// Mirror reflection of `v` about the normal `n`.
pub open spec fn s_reflect(v: V3, n: V3) -> V3 {
    s_subv(v, s_scalev(2 * s_dot(v, n), n))
}

/// Snell refraction of the unit direction `uv` at a surface with normal `n`
/// and relative index `eta`, split into perpendicular and parallel parts.
pub open spec fn s_refract(uv: V3, n: V3, eta: int) -> V3 {
    let cos = {
        let d = s_dot(s_negv(uv), n);
        if d < SCALE {
            d
        } else {
            SCALE as int
        }
    };
    let perp = s_scalev(eta, s_addv(uv, s_scalev(cos, n)));
    let par = s_scalev(-fsqrt(mag(SCALE - s_len_sq(perp))), n);
    s_addv(perp, par)
}

/// A 3D vector (or point, or colour) of fixed-point scalars.
#[derive(Clone, Copy, Debug, PartialEq, Eq, Structural)]
pub struct Vec3 {
    pub x: i64,
    pub y: i64,
    pub z: i64,
}

impl View for Vec3 {
    type V = V3;

    open spec fn view(&self) -> V3 {
        V3 { x: self.x as int, y: self.y as int, z: self.z as int }
    }
}

impl Vec3 {
    pub fn new(x: i64, y: i64, z: i64) -> (r: Self)
        ensures
            r@ == (V3 { x: x as int, y: y as int, z: z as int }),
    {
        Self { x, y, z }
    }

    pub fn zero() -> (r: Self)
        ensures
            r@ == s_zero(),
    {
        Self::new(0, 0, 0)
    }

    /// Componentwise magnitude check against the spec-level range predicate.
    pub fn in_range(&self, m: i64) -> (b: bool)
        requires
            m >= 0,
        ensures
            b == s_in_range(self@, m as int),
    {
        -m <= self.x && self.x <= m && -m <= self.y && self.y <= m && -m <= self.z && self.z <= m
    }

    pub fn near_zero(&self) -> (b: bool)
        ensures
            b == s_near_zero(self@),
    {
        self.x == 0 && self.y == 0 && self.z == 0
    }

    pub fn add(&self, o: &Vec3) -> (r: Self)
        requires
            s_in_range(self@, VEC_ADD_RANGE as int),
            s_in_range(o@, VEC_ADD_RANGE as int),
        ensures
            r@ == s_addv(self@, o@),
    {
        Self { x: self.x + o.x, y: self.y + o.y, z: self.z + o.z }
    }

    pub fn sub(&self, o: &Vec3) -> (r: Self)
        requires
            s_in_range(self@, VEC_ADD_RANGE as int),
            s_in_range(o@, VEC_ADD_RANGE as int),
        ensures
            r@ == s_subv(self@, o@),
    {
        Self { x: self.x - o.x, y: self.y - o.y, z: self.z - o.z }
    }

    pub fn neg(&self) -> (r: Self)
        requires
            s_in_range(self@, VEC_ADD_RANGE as int),
        ensures
            r@ == s_negv(self@),
    {
        Self { x: -self.x, y: -self.y, z: -self.z }
    }

    /// Scale by a fixed-point scalar.
    pub fn scale(&self, k: i64) -> (r: Self)
        requires
            s_in_range(self@, VEC_MUL_RANGE as int),
            -VEC_MUL_RANGE <= k <= VEC_MUL_RANGE,
        ensures
            r@ == s_scalev(k as int, self@),
    {
        Self { x: fx_mul(k, self.x), y: fx_mul(k, self.y), z: fx_mul(k, self.z) }
    }

    /// Divide by a raw integer count.
    pub fn div_n(&self, n: i64) -> (r: Self)
        requires
            n >= 1,
            s_in_range(self@, VEC_ADD_RANGE as int),
        ensures
            r@ == s_divn(self@, n as int),
    {
        Self { x: ix_div(self.x, n), y: ix_div(self.y, n), z: ix_div(self.z, n) }
    }

    /// Divide by a fixed-point scalar.
    pub fn div_s(&self, k: i64) -> (r: Self)
        requires
            k != 0,
            k > i64::MIN,
            s_in_range(self@, 0x4000_0000_0000),
        ensures
            r@ == s_divs(self@, k as int),
    {
        Self { x: fx_div(self.x, k), y: fx_div(self.y, k), z: fx_div(self.z, k) }
    }

    pub fn dot(&self, o: &Vec3) -> (r: i64)
        requires
            s_in_range(self@, VEC_DOT_RANGE as int),
            s_in_range(o@, VEC_DOT_RANGE as int),
        ensures
            r == s_dot(self@, o@),
    {
        proof {
            lemma_fmul_bound(self@.x, o@.x, VEC_DOT_RANGE as int, VEC_DOT_RANGE as int);
            lemma_fmul_bound(self@.y, o@.y, VEC_DOT_RANGE as int, VEC_DOT_RANGE as int);
            lemma_fmul_bound(self@.z, o@.z, VEC_DOT_RANGE as int, VEC_DOT_RANGE as int);
        }
        fx_mul(self.x, o.x) + fx_mul(self.y, o.y) + fx_mul(self.z, o.z)
    }

    pub fn cross(&self, o: &Vec3) -> (r: Self)
        requires
            s_in_range(self@, VEC_DOT_RANGE as int),
            s_in_range(o@, VEC_DOT_RANGE as int),
        ensures
            r@ == s_cross(self@, o@),
    {
        proof {
            lemma_fmul_bound(self@.y, o@.z, VEC_DOT_RANGE as int, VEC_DOT_RANGE as int);
            lemma_fmul_bound(self@.z, o@.y, VEC_DOT_RANGE as int, VEC_DOT_RANGE as int);
            lemma_fmul_bound(self@.z, o@.x, VEC_DOT_RANGE as int, VEC_DOT_RANGE as int);
            lemma_fmul_bound(self@.x, o@.z, VEC_DOT_RANGE as int, VEC_DOT_RANGE as int);
            lemma_fmul_bound(self@.x, o@.y, VEC_DOT_RANGE as int, VEC_DOT_RANGE as int);
            lemma_fmul_bound(self@.y, o@.x, VEC_DOT_RANGE as int, VEC_DOT_RANGE as int);
        }
        Self {
            x: fx_mul(self.y, o.z) - fx_mul(self.z, o.y),
            y: fx_mul(self.z, o.x) - fx_mul(self.x, o.z),
            z: fx_mul(self.x, o.y) - fx_mul(self.y, o.x),
        }
    }

    pub fn length_squared(&self) -> (r: i64)
        requires
            s_in_range(self@, VEC_DOT_RANGE as int),
        ensures
            r == s_len_sq(self@),
            0 <= r < 0x4000_0000_0000_0000,
    {
        proof {
            lemma_fmul_self_nonneg(self@.x);
            lemma_fmul_self_nonneg(self@.y);
            lemma_fmul_self_nonneg(self@.z);
            lemma_fmul_range(self@.x, self@.x, 0x40_0000_0000, 0x40_0000_0000, 0x1000_0000_0000_0000);
            lemma_fmul_range(self@.y, self@.y, 0x40_0000_0000, 0x40_0000_0000, 0x1000_0000_0000_0000);
            lemma_fmul_range(self@.z, self@.z, 0x40_0000_0000, 0x40_0000_0000, 0x1000_0000_0000_0000);
        }
        self.dot(self)
    }

    pub fn length(&self) -> (r: i64)
        requires
            s_in_range(self@, VEC_DOT_RANGE as int),
        ensures
            r == s_len(self@),
            r >= 0,
    {
        fx_sqrt(self.length_squared())
    }

    /// Normalize. The caller is responsible for a nonzero length; a vector
    /// of zero length (at this resolution) comes back zero.
    pub fn unit_vector(&self) -> (r: Self)
        requires
            s_in_range(self@, VEC_DOT_RANGE as int),
        ensures
            r@ == s_unit(self@),
            s_in_range(r@, UNIT_RANGE as int),
    {
        let len = self.length();
        if len <= 0 {
            Vec3::zero()
        } else {
            self.div_s(len).clamp(-UNIT_RANGE, UNIT_RANGE)
        }
    }

    /// Componentwise clamp into [min, max].
    pub fn clamp(&self, min: i64, max: i64) -> (r: Self)
        requires
            min <= max,
        ensures
            r@ == s_clampv(self@, min as int, max as int),
            s_in_range(r@, if mag(min as int) >= mag(max as int) { mag(min as int) } else { mag(max as int) }),
    {
        let x = if self.x < min { min } else if self.x > max { max } else { self.x };
        let y = if self.y < min { min } else if self.y > max { max } else { self.y };
        let z = if self.z < min { min } else if self.z > max { max } else { self.z };
        Self { x, y, z }
    }

    /// Mirror reflection of `v` about `n`: `v - 2 (v.n) n`.
    pub fn reflect(v: &Vec3, n: &Vec3) -> (r: Vec3)
        requires
            s_in_range(v@, 0x1000_0000),
            s_in_range(n@, 4 * SCALE as int),
        ensures
            r@ == s_reflect(v@, n@),
    {
        let d = v.dot(n);
        proof {
            lemma_fmul_range(v@.x, n@.x, 0x1000_0000, 4 * SCALE as int, 0x4000_0000);
            lemma_fmul_range(v@.y, n@.y, 0x1000_0000, 4 * SCALE as int, 0x4000_0000);
            lemma_fmul_range(v@.z, n@.z, 0x1000_0000, 4 * SCALE as int, 0x4000_0000);
            lemma_fmul_range(2 * d, n@.x, 0x1_8000_0001, 4 * SCALE as int, 0x6_0000_0400);
            lemma_fmul_range(2 * d, n@.y, 0x1_8000_0001, 4 * SCALE as int, 0x6_0000_0400);
            lemma_fmul_range(2 * d, n@.z, 0x1_8000_0001, 4 * SCALE as int, 0x6_0000_0400);
        }
        v.sub(&n.scale(2 * d))
    }

    /// Snell refraction of the unit direction `uv` about `n`, with relative
    /// refraction index `eta`; the cosine is clamped to one whole unit to
    /// absorb fixed-point overshoot.
    pub fn refract(uv: &Vec3, n: &Vec3, eta: i64) -> (r: Vec3)
        requires
            s_in_range(uv@, 4 * SCALE as int),
            s_in_range(n@, 4 * SCALE as int),
            0 <= eta <= 32 * SCALE,
        ensures
            r@ == s_refract(uv@, n@, eta as int),
    {
        let d = uv.neg().dot(n);
        let cos_theta = if d < SCALE { d } else { SCALE };
        proof {
            lemma_fmul_range((-uv@.x), n@.x, 262144, 262144, 1048576);
            lemma_fmul_range((-uv@.y), n@.y, 262144, 262144, 1048576);
            lemma_fmul_range((-uv@.z), n@.z, 262144, 262144, 1048576);
            lemma_fmul_range(cos_theta as int, n@.x, 3145728, 262144, 12582912);
            lemma_fmul_range(cos_theta as int, n@.y, 3145728, 262144, 12582912);
            lemma_fmul_range(cos_theta as int, n@.z, 3145728, 262144, 12582912);
        }
        let scaled_n = n.scale(cos_theta);
        let summed = uv.add(&scaled_n);
        let r_out_perp = summed.scale(eta);
        proof {
            lemma_fmul_range(eta as int, summed@.x, 2097152, 12845056, 411041792);
            lemma_fmul_range(eta as int, summed@.y, 2097152, 12845056, 411041792);
            lemma_fmul_range(eta as int, summed@.z, 2097152, 12845056, 411041792);
        }
        let ls = r_out_perp.length_squared();
        let gap = if SCALE - ls >= 0 { SCALE - ls } else { -(SCALE - ls) };
        let sq = fx_sqrt(gap);
        let r_out_parallel = n.scale(-sq);
        proof {
            lemma_fmul_range(-(sq as int), n@.x, 0x80_0000_0000, 262144, 0x200_0000_0000);
            lemma_fmul_range(-(sq as int), n@.y, 0x80_0000_0000, 262144, 0x200_0000_0000);
            lemma_fmul_range(-(sq as int), n@.z, 0x80_0000_0000, 262144, 0x200_0000_0000);
        }
        r_out_perp.add(&r_out_parallel)
    }

    /// A random vector with each component in [0, 1).
    pub fn random() -> (r: Self)
        ensures
            s_in_range(r@, SCALE as int),
    {
        Self::new(random_double(), random_double(), random_double())
    }

    /// A random vector with each component in [min, max).
    pub fn random_range(min: i64, max: i64) -> (r: Self)
        requires
            min <= max,
            -0x40_0000_0000 <= min,
            max <= 0x40_0000_0000,
        ensures
            min <= r@.x <= max,
            min <= r@.y <= max,
            min <= r@.z <= max,
            min < max ==> r@.x < max && r@.y < max && r@.z < max,
    {
        Self::new(
            random_double_range(min, max),
            random_double_range(min, max),
            random_double_range(min, max),
        )
    }

    /// Rejection-sample a point in the unit disk (z fixed at zero). The
    /// retry count is bounded; if every draw is rejected the disk's centre
    /// stands in, which keeps the result's contract.
    pub fn random_in_unit_disk() -> (r: Self)
        ensures
            r@.z == 0,
            s_len_sq(r@) < SCALE,
            s_in_range(r@, SCALE as int),
    {
        let mut tries: u32 = 0;
        while tries < 64
            invariant
                true,
            decreases 64 - tries,
        {
            let p = Vec3::random_range(-SCALE, SCALE);
            let q = Vec3::new(p.x, p.y, 0);
            if q.length_squared() < SCALE {
                return q;
            }
            tries = tries + 1;
        }
        Vec3::zero()
    }

    /// Rejection-sample a direction uniform on the unit sphere: draw in the
    /// cube, keep draws whose squared length lies in a radially symmetric
    /// window (which leaves the direction's law untouched and plays the
    /// near-zero-normalization guard at this resolution), and project to the
    /// sphere. The retry count is bounded; the x axis stands in if every
    /// draw is rejected.
    pub fn random_unit_vector() -> (r: Self)
        ensures
            s_in_range(r@, UNIT_RANGE as int),
            mag(s_len(r@) - SCALE) <= 64,
    {
        let mut tries: u32 = 0;
        while tries < 64
            invariant
                true,
            decreases 64 - tries,
        {
            let p = Vec3::random_range(-SCALE, SCALE);
            let ls = p.length_squared();
            if ls <= SCALE && ls >= 16384 {
                proof {
                    lemma_unit_vector_length(p@);
                }
                return p.unit_vector();
            }
            tries = tries + 1;
        }
        proof {
            lemma_axis_unit_length();
        }
        Vec3::new(SCALE, 0, 0)
    }

    /// A random unit vector flipped, if need be, into the hemisphere of
    /// `normal`.
    pub fn random_on_hemisphere(normal: &Vec3) -> (r: Self)
        requires
            s_in_range(normal@, VEC_DOT_RANGE as int),
        ensures
            s_in_range(r@, UNIT_RANGE as int),
            s_dot(r@, normal@) >= 0,
            mag(s_len(r@) - SCALE) <= 64,
    {
        let on_unit_sphere = Vec3::random_unit_vector();
        if on_unit_sphere.dot(normal) > 0 {
            on_unit_sphere
        } else {
            proof {
                lemma_dot_neg(on_unit_sphere@, normal@);
                lemma_len_neg(on_unit_sphere@);
            }
            on_unit_sphere.neg()
        }
    }
}

/// The positive x axis has exactly unit length.
proof fn lemma_axis_unit_length()
    ensures
        s_len(V3 { x: SCALE as int, y: 0, z: 0 }) == SCALE,
{
    crate::fixed::lemma_scale_cancel(SCALE as int);
    let u = V3 { x: SCALE as int, y: 0, z: 0 };
    assert(fmul(0, 0) == 0);
    assert(s_len_sq(u) == SCALE);
    assert((SCALE as int) * SCALE < ((SCALE as int) + 1) * ((SCALE as int) + 1)) by (nonlinear_arith);
    crate::fixed::lemma_isqrt_unique((SCALE as int) * SCALE, SCALE as int);
}

/// Negation preserves squared length, and so length.
pub proof fn lemma_len_neg(a: V3)
    ensures
        s_len_sq(s_negv(a)) == s_len_sq(a),
        s_len(s_negv(a)) == s_len(a),
{
    assert((-a.x) * (-a.x) == a.x * a.x) by (nonlinear_arith);
    assert((-a.y) * (-a.y) == a.y * a.y) by (nonlinear_arith);
    assert((-a.z) * (-a.z) == a.z * a.z) by (nonlinear_arith);
}

/// Negating the left argument negates a dot product.
pub proof fn lemma_dot_neg(a: V3, b: V3)
    ensures
        s_dot(s_negv(a), b) == -s_dot(a, b),
{
    lemma_fmul_neg(a.x, b.x);
    lemma_fmul_neg(a.y, b.y);
    lemma_fmul_neg(a.z, b.z);
}

/// Negating one factor negates a fixed-point product.
pub proof fn lemma_fmul_neg(a: int, b: int)
    ensures
        fmul(-a, b) == -fmul(a, b),
{
    assert((-a) * b == -(a * b)) by (nonlinear_arith);
    crate::fixed::lemma_tdiv_neg(a * b, SCALE as int);
}

/// Dot products are symmetric.
pub proof fn lemma_dot_comm(a: V3, b: V3)
    ensures
        s_dot(a, b) == s_dot(b, a),
{
    crate::fixed::lemma_fmul_comm(a.x, b.x);
    crate::fixed::lemma_fmul_comm(a.y, b.y);
    crate::fixed::lemma_fmul_comm(a.z, b.z);
}

/// Cross products are antisymmetric: swapping the arguments negates every
/// component exactly, truncation included.
pub proof fn lemma_cross_antisym(a: V3, b: V3)
    ensures
        s_cross(a, b) == s_negv(s_cross(b, a)),
{
    crate::fixed::lemma_fmul_comm(a.y, b.z);
    crate::fixed::lemma_fmul_comm(a.z, b.y);
    crate::fixed::lemma_fmul_comm(a.z, b.x);
    crate::fixed::lemma_fmul_comm(a.x, b.z);
    crate::fixed::lemma_fmul_comm(a.x, b.y);
    crate::fixed::lemma_fmul_comm(a.y, b.x);
}

/// One component of the binomial law: expanding a squared sum in fixed
/// point loses less than one unit per truncated product.
proof fn lemma_sq_expand(u: int, v: int)
    ensures
        mag(fmul(u + v, u + v) - (fmul(u, u) + 2 * fmul(u, v) + fmul(v, v))) <= 4,
{
    crate::fixed::lemma_tdiv((u + v) * (u + v), SCALE as int);
    crate::fixed::lemma_tdiv(u * u, SCALE as int);
    crate::fixed::lemma_tdiv(u * v, SCALE as int);
    crate::fixed::lemma_tdiv(v * v, SCALE as int);
    assert((u + v) * (u + v) == u * u + 2 * (u * v) + v * v) by (nonlinear_arith);
    assert(u * u >= 0) by (nonlinear_arith);
    assert(v * v >= 0) by (nonlinear_arith);
    assert((u + v) * (u + v) >= 0) by (nonlinear_arith);
    let d = fmul(u + v, u + v) - (fmul(u, u) + 2 * fmul(u, v) + fmul(v, v));
    assert(mag(d) <= 4) by (nonlinear_arith)
        requires
            (u + v) * (u + v) == u * u + 2 * (u * v) + v * v,
            SCALE as int * fmul(u + v, u + v) <= (u + v) * (u + v) < SCALE as int * fmul(
                u + v,
                u + v,
            ) + SCALE,
            SCALE as int * fmul(u, u) <= u * u < SCALE as int * fmul(u, u) + SCALE,
            SCALE as int * fmul(v, v) <= v * v < SCALE as int * fmul(v, v) + SCALE,
            SCALE as int * fmul(u, v) - SCALE < u * v < SCALE as int * fmul(u, v) + SCALE,
            d == fmul(u + v, u + v) - (fmul(u, u) + 2 * fmul(u, v) + fmul(v, v)),
            SCALE == 65536,
    ;
}

/// The squared length of a sum expands binomially, up to a few units of
/// truncation noise.
pub proof fn lemma_add_length_squared(a: V3, b: V3)
    ensures
        mag(s_len_sq(s_addv(a, b)) - (s_len_sq(a) + 2 * s_dot(a, b) + s_len_sq(b))) <= 12,
{
    lemma_sq_expand(a.x, b.x);
    lemma_sq_expand(a.y, b.y);
    lemma_sq_expand(a.z, b.z);
}

/// Within the scene envelope (direction inside it, normal within two whole
/// units) a reflection stays well inside the representable range.
pub proof fn lemma_reflect_range(v: V3, n: V3)
    requires
        s_in_range(v, 0x400_0000),
        s_in_range(n, UNIT_RANGE as int),
    ensures
        s_in_range(s_reflect(v, n), 0x1_0000_0000),
        -0x2000_0000 <= s_dot(v, n) <= 0x2000_0000,
{
    lemma_fmul_range(v.x, n.x, 0x400_0000, 131072, 0x800_0000);
    lemma_fmul_range(v.y, n.y, 0x400_0000, 131072, 0x800_0000);
    lemma_fmul_range(v.z, n.z, 0x400_0000, 131072, 0x800_0000);
    lemma_fmul_range(2 * s_dot(v, n), n.x, 0x4000_0000, 131072, 0x8000_0000);
    lemma_fmul_range(2 * s_dot(v, n), n.y, 0x4000_0000, 131072, 0x8000_0000);
    lemma_fmul_range(2 * s_dot(v, n), n.z, 0x4000_0000, 131072, 0x8000_0000);
}

/// Within the scene envelope, a refraction of a unit-scaled direction stays
/// well inside the representable range.
pub proof fn lemma_refract_range(uv: V3, n: V3, eta: int)
    requires
        s_in_range(uv, UNIT_RANGE as int),
        s_in_range(n, UNIT_RANGE as int),
        0 <= eta <= 0x10_0000,
    ensures
        s_in_range(s_refract(uv, n, eta), 0x8000_0000),
{
    let d = s_dot(s_negv(uv), n);
    lemma_fmul_range(-uv.x, n.x, 131072, 131072, 262144);
    lemma_fmul_range(-uv.y, n.y, 131072, 131072, 262144);
    lemma_fmul_range(-uv.z, n.z, 131072, 131072, 262144);
    let cos = if d < SCALE {
        d
    } else {
        SCALE as int
    };
    lemma_fmul_range(cos, n.x, 0x10_0000, 131072, 0x20_0000);
    lemma_fmul_range(cos, n.y, 0x10_0000, 131072, 0x20_0000);
    lemma_fmul_range(cos, n.z, 0x10_0000, 131072, 0x20_0000);
    let summed = s_addv(uv, s_scalev(cos, n));
    let perp = s_scalev(eta, summed);
    lemma_fmul_range(eta, summed.x, 0x10_0000, 0x40_0000, 0x400_0000);
    lemma_fmul_range(eta, summed.y, 0x10_0000, 0x40_0000, 0x400_0000);
    lemma_fmul_range(eta, summed.z, 0x10_0000, 0x40_0000, 0x400_0000);
    lemma_fmul_range(perp.x, perp.x, 0x400_0000, 0x400_0000, 0x10_0000_0000);
    lemma_fmul_range(perp.y, perp.y, 0x400_0000, 0x400_0000, 0x10_0000_0000);
    lemma_fmul_range(perp.z, perp.z, 0x400_0000, 0x400_0000, 0x10_0000_0000);
    lemma_fmul_self_nonneg(perp.x);
    lemma_fmul_self_nonneg(perp.y);
    lemma_fmul_self_nonneg(perp.z);
    let gap = mag(SCALE - s_len_sq(perp));
    crate::fixed::lemma_isqrt_le(gap * SCALE, 0x1000_0000);
    let sq = fsqrt(gap);
    lemma_fmul_range(-sq, n.x, 0x1000_0000, 131072, 0x2000_0000);
    lemma_fmul_range(-sq, n.y, 0x1000_0000, 131072, 0x2000_0000);
    lemma_fmul_range(-sq, n.z, 0x1000_0000, 131072, 0x2000_0000);
}

/// Multiplying by zero in fixed point gives zero.
proof fn lemma_fmul_zero(k: int)
    ensures
        fmul(k, 0) == 0,
        fmul(0, k) == 0,
{
    assert(k * 0 == 0) by (nonlinear_arith);
    assert(0 * k == 0) by (nonlinear_arith);
}

/// Multiplying by minus one whole unit negates, exactly.
proof fn lemma_fmul_neg_unit(c: int)
    ensures
        fmul(c, -(SCALE as int)) == -c,
        fmul(-(SCALE as int), c) == -c,
{
    assert(c * (-(SCALE as int)) == -(c * SCALE)) by (nonlinear_arith);
    assert((-(SCALE as int)) * c == -(c * SCALE)) by (nonlinear_arith);
    crate::fixed::lemma_tdiv_neg(c * SCALE, SCALE as int);
    crate::fixed::lemma_scale_cancel(c);
}

/// Reflection about a coordinate-axis unit normal is an involution, exactly:
/// such normals carry no representation error, and reflecting a vector
/// twice about one of them hands the vector back unchanged.
pub proof fn lemma_reflect_involution_axis(v: V3, n: V3)
    requires
        n == (V3 { x: SCALE as int, y: 0, z: 0 }) || n == (V3 { x: -(SCALE as int), y: 0, z: 0 })
            || n == (V3 { x: 0, y: SCALE as int, z: 0 }) || n == (V3 {
            x: 0,
            y: -(SCALE as int),
            z: 0,
        }) || n == (V3 { x: 0, y: 0, z: SCALE as int }) || n == (V3 {
            x: 0,
            y: 0,
            z: -(SCALE as int),
        }),
    ensures
        s_reflect(s_reflect(v, n), n) == v,
{
    crate::fixed::lemma_scale_cancel(v.x);
    crate::fixed::lemma_scale_cancel(v.y);
    crate::fixed::lemma_scale_cancel(v.z);
    crate::fixed::lemma_scale_cancel(-v.x);
    crate::fixed::lemma_scale_cancel(-v.y);
    crate::fixed::lemma_scale_cancel(-v.z);
    lemma_fmul_neg_unit(v.x);
    lemma_fmul_neg_unit(v.y);
    lemma_fmul_neg_unit(v.z);
    lemma_fmul_neg_unit(-v.x);
    lemma_fmul_neg_unit(-v.y);
    lemma_fmul_neg_unit(-v.z);
    let d = s_dot(v, n);
    lemma_fmul_zero(v.x);
    lemma_fmul_zero(v.y);
    lemma_fmul_zero(v.z);
    lemma_fmul_zero(2 * d);
    crate::fixed::lemma_scale_cancel(2 * d);
    lemma_fmul_neg_unit(2 * d);
    let r1 = s_reflect(v, n);
    let d2 = s_dot(r1, n);
    lemma_fmul_zero(2 * d2);
    crate::fixed::lemma_scale_cancel(2 * d2);
    lemma_fmul_neg_unit(2 * d2);
}

/// Reflection is an involution up to truncation noise: about a normal of
/// unit length (itself exact only up to truncation), reflecting twice
/// returns every component of the vector to within a small fixed tolerance.
pub proof fn lemma_reflect_involution(v: V3, n: V3)
    requires
        s_in_range(v, 4 * SCALE as int),
        s_in_range(n, 2 * SCALE as int),
        mag(s_dot(n, n) - SCALE) <= 4,
    ensures
        mag(s_reflect(s_reflect(v, n), n).x - v.x) <= 2048,
        mag(s_reflect(s_reflect(v, n), n).y - v.y) <= 2048,
        mag(s_reflect(s_reflect(v, n), n).z - v.z) <= 2048,
{
    let s = SCALE as int;
    let d = s_dot(v, n);
    let vn = v.x * n.x + v.y * n.y + v.z * n.z;
    crate::fixed::lemma_fmul_err(v.x, n.x);
    crate::fixed::lemma_fmul_err(v.y, n.y);
    crate::fixed::lemma_fmul_err(v.z, n.z);
    assert(mag(s * d - vn) < 3 * s);
    lemma_fmul_range(v.x, n.x, 4 * SCALE as int, 2 * SCALE as int, 524288);
    lemma_fmul_range(v.y, n.y, 4 * SCALE as int, 2 * SCALE as int, 524288);
    lemma_fmul_range(v.z, n.z, 4 * SCALE as int, 2 * SCALE as int, 524288);
    assert(mag(d) <= 24 * s);
    let n2 = n.x * n.x + n.y * n.y + n.z * n.z;
    crate::fixed::lemma_fmul_err(n.x, n.x);
    crate::fixed::lemma_fmul_err(n.y, n.y);
    crate::fixed::lemma_fmul_err(n.z, n.z);
    assert(mag(n2 - s * s) < 7 * s);
    let r1 = s_reflect(v, n);
    crate::fixed::lemma_fmul_err(2 * d, n.x);
    crate::fixed::lemma_fmul_err(2 * d, n.y);
    crate::fixed::lemma_fmul_err(2 * d, n.z);
    let e1x = s * fmul(2 * d, n.x) - 2 * d * n.x;
    let e1y = s * fmul(2 * d, n.y) - 2 * d * n.y;
    let e1z = s * fmul(2 * d, n.z) - 2 * d * n.z;
    assert(s * r1.x == s * v.x - 2 * d * n.x - e1x);
    assert(s * r1.y == s * v.y - 2 * d * n.y - e1y);
    assert(s * r1.z == s * v.z - 2 * d * n.z - e1z);
    let d2 = s_dot(r1, n);
    crate::fixed::lemma_fmul_err(r1.x, n.x);
    crate::fixed::lemma_fmul_err(r1.y, n.y);
    crate::fixed::lemma_fmul_err(r1.z, n.z);
    let rn = r1.x * n.x + r1.y * n.y + r1.z * n.z;
    assert(mag(s * d2 - rn) < 3 * s);
    assert(s * (r1.x * n.x) == s * (v.x * n.x) - 2 * d * (n.x * n.x) - e1x * n.x)
        by (nonlinear_arith)
        requires
            s * r1.x == s * v.x - 2 * d * n.x - e1x,
    ;
    assert(s * (r1.y * n.y) == s * (v.y * n.y) - 2 * d * (n.y * n.y) - e1y * n.y)
        by (nonlinear_arith)
        requires
            s * r1.y == s * v.y - 2 * d * n.y - e1y,
    ;
    assert(s * (r1.z * n.z) == s * (v.z * n.z) - 2 * d * (n.z * n.z) - e1z * n.z)
        by (nonlinear_arith)
        requires
            s * r1.z == s * v.z - 2 * d * n.z - e1z,
    ;
    assert(s * rn == s * vn - 2 * d * n2 - (e1x * n.x + e1y * n.y + e1z * n.z))
        by (nonlinear_arith)
        requires
            rn == r1.x * n.x + r1.y * n.y + r1.z * n.z,
            vn == v.x * n.x + v.y * n.y + v.z * n.z,
            n2 == n.x * n.x + n.y * n.y + n.z * n.z,
            s * (r1.x * n.x) == s * (v.x * n.x) - 2 * d * (n.x * n.x) - e1x * n.x,
            s * (r1.y * n.y) == s * (v.y * n.y) - 2 * d * (n.y * n.y) - e1y * n.y,
            s * (r1.z * n.z) == s * (v.z * n.z) - 2 * d * (n.z * n.z) - e1z * n.z,
    ;
    crate::fixed::lemma_mul_mag(e1x, n.x);
    assert(mag(e1x * n.x) <= s * (2 * s)) by (nonlinear_arith)
        requires
            mag(e1x) <= s,
            mag(n.x) <= 2 * s,
            mag(e1x * n.x) == mag(e1x) * mag(n.x),
            s >= 0,
    ;
    crate::fixed::lemma_mul_mag(e1y, n.y);
    assert(mag(e1y * n.y) <= s * (2 * s)) by (nonlinear_arith)
        requires
            mag(e1y) <= s,
            mag(n.y) <= 2 * s,
            mag(e1y * n.y) == mag(e1y) * mag(n.y),
            s >= 0,
    ;
    crate::fixed::lemma_mul_mag(e1z, n.z);
    assert(mag(e1z * n.z) <= s * (2 * s)) by (nonlinear_arith)
        requires
            mag(e1z) <= s,
            mag(n.z) <= 2 * s,
            mag(e1z * n.z) == mag(e1z) * mag(n.z),
            s >= 0,
    ;
    assert(mag(2 * d * (n2 - s * s)) <= 336 * (s * s)) by (nonlinear_arith)
        requires
            mag(d) <= 24 * s,
            mag(n2 - s * s) <= 7 * s,
            s >= 0,
    ;
    // assemble: the second dot product is, to bounded noise, the negation
    // of the first
    assert(mag(s * s * (d2 + d)) <= 348 * (s * s)) by (nonlinear_arith)
        requires
            mag(s * d2 - rn) < 3 * s,
            s * rn == s * vn - 2 * d * n2 - (e1x * n.x + e1y * n.y + e1z * n.z),
            mag(s * d - vn) < 3 * s,
            mag(e1x * n.x) <= s * (2 * s),
            mag(e1y * n.y) <= s * (2 * s),
            mag(e1z * n.z) <= s * (2 * s),
            mag(2 * d * (n2 - s * s)) <= 336 * (s * s),
            s == 65536,
    ;
    crate::fixed::lemma_mul_mag(s * s, d2 + d);
    assert(mag(d2 + d) <= 348) by (nonlinear_arith)
        requires
            mag(s * s * (d2 + d)) <= 348 * (s * s),
            mag(s * s * (d2 + d)) == (s * s) * mag(d2 + d),
            s == 65536,
    ;
    let r2 = s_reflect(r1, n);
    crate::fixed::lemma_fmul_err(2 * d2, n.x);
    crate::fixed::lemma_fmul_err(2 * d2, n.y);
    crate::fixed::lemma_fmul_err(2 * d2, n.z);
    let e4x = s * fmul(2 * d2, n.x) - 2 * d2 * n.x;
    let e4y = s * fmul(2 * d2, n.y) - 2 * d2 * n.y;
    let e4z = s * fmul(2 * d2, n.z) - 2 * d2 * n.z;
    assert(s * (r2.x - v.x) == -(2 * (d2 + d) * n.x) - e1x - e4x) by (nonlinear_arith)
        requires
            s * r2.x == s * r1.x - 2 * d2 * n.x - e4x,
            s * r1.x == s * v.x - 2 * d * n.x - e1x,
    ;
    assert(s * (r2.y - v.y) == -(2 * (d2 + d) * n.y) - e1y - e4y) by (nonlinear_arith)
        requires
            s * r2.y == s * r1.y - 2 * d2 * n.y - e4y,
            s * r1.y == s * v.y - 2 * d * n.y - e1y,
    ;
    assert(s * (r2.z - v.z) == -(2 * (d2 + d) * n.z) - e1z - e4z) by (nonlinear_arith)
        requires
            s * r2.z == s * r1.z - 2 * d2 * n.z - e4z,
            s * r1.z == s * v.z - 2 * d * n.z - e1z,
    ;
    assert(mag(r2.x - v.x) <= 2048) by (nonlinear_arith)
        requires
            s * (r2.x - v.x) == -(2 * (d2 + d) * n.x) - e1x - e4x,
            mag(d2 + d) <= 348,
            mag(n.x) <= 2 * s,
            mag(e1x) <= s,
            mag(e4x) <= s,
            s == 65536,
    ;
    assert(mag(r2.y - v.y) <= 2048) by (nonlinear_arith)
        requires
            s * (r2.y - v.y) == -(2 * (d2 + d) * n.y) - e1y - e4y,
            mag(d2 + d) <= 348,
            mag(n.y) <= 2 * s,
            mag(e1y) <= s,
            mag(e4y) <= s,
            s == 65536,
    ;
    assert(mag(r2.z - v.z) <= 2048) by (nonlinear_arith)
        requires
            s * (r2.z - v.z) == -(2 * (d2 + d) * n.z) - e1z - e4z,
            mag(d2 + d) <= 348,
            mag(n.z) <= 2 * s,
            mag(e1z) <= s,
            mag(e4z) <= s,
            s == 65536,
    ;
}

/// Normalizing scales the length to one whole unit, up to a small fixed
/// tolerance, for any vector of at least half a unit of length (below that,
/// fixed-point truncation genuinely degrades the quotient, which is why the
/// samplers reject such draws).
pub proof fn lemma_unit_vector_length(v: V3)
    requires
        s_len_sq(v) >= 16384,
    ensures
        mag(s_len(s_unit(v)) - SCALE) <= 64,
{
    let s = SCALE as int;
    let ls = s_len_sq(v);
    let q = v.x * v.x + v.y * v.y + v.z * v.z;
    crate::fixed::lemma_fmul_err(v.x, v.x);
    crate::fixed::lemma_fmul_err(v.y, v.y);
    crate::fixed::lemma_fmul_err(v.z, v.z);
    assert(mag(s * ls - q) < 3 * s);
    assert(v.x * v.x >= 0 && v.y * v.y >= 0 && v.z * v.z >= 0) by (nonlinear_arith);
    let lv = s_len(v);
    crate::fixed::lemma_isqrt(ls * s);
    crate::fixed::lemma_isqrt_ge(ls * s, 32768);
    assert(lv * lv <= ls * s < (lv + 1) * (lv + 1));
    assert(lv >= 32768);
    // no component outruns the length by more than a few steps
    assert(v.x * v.x <= (lv + 4) * (lv + 4)) by (nonlinear_arith)
        requires
            v.x * v.x <= q,
            q < s * ls + 3 * s,
            s * ls == ls * s,
            ls * s < (lv + 1) * (lv + 1),
            lv >= 32768,
            s == 65536,
    ;
    assert(v.y * v.y <= (lv + 4) * (lv + 4)) by (nonlinear_arith)
        requires
            v.y * v.y <= q,
            q < s * ls + 3 * s,
            s * ls == ls * s,
            ls * s < (lv + 1) * (lv + 1),
            lv >= 32768,
            s == 65536,
    ;
    assert(v.z * v.z <= (lv + 4) * (lv + 4)) by (nonlinear_arith)
        requires
            v.z * v.z <= q,
            q < s * ls + 3 * s,
            s * ls == ls * s,
            ls * s < (lv + 1) * (lv + 1),
            lv >= 32768,
            s == 65536,
    ;
    assert(mag(v.x) <= lv + 4 && mag(v.y) <= lv + 4 && mag(v.z) <= lv + 4) by (nonlinear_arith)
        requires
            v.x * v.x <= (lv + 4) * (lv + 4),
            v.y * v.y <= (lv + 4) * (lv + 4),
            v.z * v.z <= (lv + 4) * (lv + 4),
            lv >= 0,
    ;
    // the normalized components, and the truncation they each leave
    let ux = tdiv(v.x * s, lv);
    let uy = tdiv(v.y * s, lv);
    let uz = tdiv(v.z * s, lv);
    crate::fixed::lemma_tdiv(v.x * s, lv);
    crate::fixed::lemma_tdiv(v.y * s, lv);
    crate::fixed::lemma_tdiv(v.z * s, lv);
    let rx = v.x * s - lv * ux;
    let ry = v.y * s - lv * uy;
    let rz = v.z * s - lv * uz;
    assert(mag(rx) < lv && mag(ry) < lv && mag(rz) < lv);
    assert(v.x * rx >= 0 && v.y * ry >= 0 && v.z * rz >= 0) by (nonlinear_arith)
        requires
            v.x * s >= 0 ==> 0 <= rx < lv,
            v.x * s <= 0 ==> -lv < rx <= 0,
            v.y * s >= 0 ==> 0 <= ry < lv,
            v.y * s <= 0 ==> -lv < ry <= 0,
            v.z * s >= 0 ==> 0 <= rz < lv,
            v.z * s <= 0 ==> -lv < rz <= 0,
            s == 65536,
    ;
    // the normalized components stay inside two whole units, so the clamp
    // in s_unit never bites
    assert(mag(ux) * lv <= mag(v.x * s)) by {
        crate::fixed::lemma_tdiv(v.x * s, lv);
    }
    crate::fixed::lemma_mul_mag(v.x, s);
    crate::fixed::lemma_mul_mag(v.y, s);
    crate::fixed::lemma_mul_mag(v.z, s);
    assert(mag(ux) <= 2 * s) by (nonlinear_arith)
        requires
            mag(ux) * lv <= mag(v.x) * s,
            mag(v.x) <= lv + 4,
            lv >= 32768,
            s == 65536,
            mag(ux) >= 0,
    ;
    assert(mag(uy) * lv <= mag(v.y * s)) by {
        crate::fixed::lemma_tdiv(v.y * s, lv);
    }
    assert(mag(uy) <= 2 * s) by (nonlinear_arith)
        requires
            mag(uy) * lv <= mag(v.y) * s,
            mag(v.y) <= lv + 4,
            lv >= 32768,
            s == 65536,
            mag(uy) >= 0,
    ;
    assert(mag(uz) * lv <= mag(v.z * s)) by {
        crate::fixed::lemma_tdiv(v.z * s, lv);
    }
    assert(mag(uz) <= 2 * s) by (nonlinear_arith)
        requires
            mag(uz) * lv <= mag(v.z) * s,
            mag(v.z) <= lv + 4,
            lv >= 32768,
            s == 65536,
            mag(uz) >= 0,
    ;
    let u = s_unit(v);
    assert(u == (V3 { x: ux, y: uy, z: uz }));
    // expand each squared component against the exact quotient
    assert((lv * lv) * (ux * ux) == (v.x * s - rx) * (v.x * s - rx)) by (nonlinear_arith)
        requires
            lv * ux == v.x * s - rx,
    ;
    assert((lv * lv) * (uy * uy) == (v.y * s - ry) * (v.y * s - ry)) by (nonlinear_arith)
        requires
            lv * uy == v.y * s - ry,
    ;
    assert((lv * lv) * (uz * uz) == (v.z * s - rz) * (v.z * s - rz)) by (nonlinear_arith)
        requires
            lv * uz == v.z * s - rz,
    ;
    let aa = ux * ux + uy * uy + uz * uz;
    let rr = v.x * rx + v.y * ry + v.z * rz;
    let pp = rx * rx + ry * ry + rz * rz;
    assert((v.x * s - rx) * (v.x * s - rx) == (v.x * v.x) * (s * s) - 2 * s * (v.x * rx) + rx
        * rx) by (nonlinear_arith);
    assert((v.y * s - ry) * (v.y * s - ry) == (v.y * v.y) * (s * s) - 2 * s * (v.y * ry) + ry
        * ry) by (nonlinear_arith);
    assert((v.z * s - rz) * (v.z * s - rz) == (v.z * v.z) * (s * s) - 2 * s * (v.z * rz) + rz
        * rz) by (nonlinear_arith);
    assert((lv * lv) * aa == (lv * lv) * (ux * ux) + (lv * lv) * (uy * uy) + (lv * lv) * (uz
        * uz)) by (nonlinear_arith)
        requires
            aa == ux * ux + uy * uy + uz * uz,
    ;
    assert(q * (s * s) == (v.x * v.x) * (s * s) + (v.y * v.y) * (s * s) + (v.z * v.z) * (s
        * s)) by (nonlinear_arith)
        requires
            q == v.x * v.x + v.y * v.y + v.z * v.z,
    ;
    assert(2 * s * rr == 2 * s * (v.x * rx) + 2 * s * (v.y * ry) + 2 * s * (v.z * rz))
        by (nonlinear_arith)
        requires
            rr == v.x * rx + v.y * ry + v.z * rz,
    ;
    assert((lv * lv) * aa == q * (s * s) - 2 * s * rr + pp);
    // bound the residual sums, componentwise
    assert(v.x * rx <= (lv + 4) * lv) by (nonlinear_arith)
        requires
            -(lv + 4) <= v.x <= lv + 4,
            -lv <= rx <= lv,
            lv >= 0,
    ;
    assert(v.y * ry <= (lv + 4) * lv) by (nonlinear_arith)
        requires
            -(lv + 4) <= v.y <= lv + 4,
            -lv <= ry <= lv,
            lv >= 0,
    ;
    assert(v.z * rz <= (lv + 4) * lv) by (nonlinear_arith)
        requires
            -(lv + 4) <= v.z <= lv + 4,
            -lv <= rz <= lv,
            lv >= 0,
    ;
    assert(0 <= rr <= 3 * ((lv + 4) * lv));
    assert(rx * rx <= lv * lv && ry * ry <= lv * lv && rz * rz <= lv * lv) by (nonlinear_arith)
        requires
            -lv <= rx <= lv,
            -lv <= ry <= lv,
            -lv <= rz <= lv,
    ;
    assert(rx * rx >= 0 && ry * ry >= 0 && rz * rz >= 0) by (nonlinear_arith);
    assert(0 <= pp <= 3 * (lv * lv));
    // the squared components sum to one square unit, within a few units
    assert((lv * lv) * aa <= (lv * lv) * (s * s + 25 * s)) by (nonlinear_arith)
        requires
            (lv * lv) * aa == q * (s * s) - 2 * s * rr + pp,
            q < s * ls + 3 * s,
            s * ls == ls * s,
            ls * s < (lv + 1) * (lv + 1),
            rr >= 0,
            pp <= 3 * (lv * lv),
            lv >= 32768,
            s == 65536,
    ;
    assert((lv * lv) * aa >= (lv * lv) * (s * s - 20 * s)) by (nonlinear_arith)
        requires
            (lv * lv) * aa == q * (s * s) - 2 * s * rr + pp,
            q > s * ls - 3 * s,
            s * ls == ls * s,
            lv * lv <= ls * s,
            rr <= 3 * ((lv + 4) * lv),
            pp >= 0,
            lv >= 32768,
            s == 65536,
    ;
    assert(s * s - 20 * s <= aa <= s * s + 25 * s) by (nonlinear_arith)
        requires
            (lv * lv) * aa <= (lv * lv) * (s * s + 25 * s),
            (lv * lv) * aa >= (lv * lv) * (s * s - 20 * s),
            lv >= 32768,
    ;
    // hence the squared length of the normalized vector
    let lsu = s_len_sq(u);
    crate::fixed::lemma_fmul_err(ux, ux);
    crate::fixed::lemma_fmul_err(uy, uy);
    crate::fixed::lemma_fmul_err(uz, uz);
    assert(aa - 3 * s < s * lsu < aa + 3 * s);
    assert(s * (s - 23) <= s * lsu <= s * (s + 28)) by (nonlinear_arith)
        requires
            aa - 3 * s < s * lsu < aa + 3 * s,
            s * s - 20 * s <= aa <= s * s + 25 * s,
            s == 65536,
    ;
    assert(s - 23 <= lsu <= s + 28) by (nonlinear_arith)
        requires
            s * (s - 23) <= s * lsu <= s * (s + 28),
            s == 65536,
    ;
    // and its length
    crate::fixed::lemma_isqrt_le(lsu * s, s + 14);
    crate::fixed::lemma_isqrt_ge(lsu * s, s - 12);
    assert(lsu * s <= (s + 14) * (s + 14)) by (nonlinear_arith)
        requires
            lsu <= s + 28,
            s == 65536,
    ;
    assert((s - 12) * (s - 12) <= lsu * s) by (nonlinear_arith)
        requires
            lsu >= s - 23,
            s == 65536,
    ;
    assert(s - 12 <= s_len(u) <= s + 14);
}

} // verus!
