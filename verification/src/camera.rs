//! The camera: projection geometry, per-pixel jittered rays, the recursive
//! light-transport evaluation, and the two render drivers.
//!
//! `initialize` derives the viewport geometry once per render; `get_ray`
//! jitters within a pixel (and within the defocus disk when depth of field
//! is on); `ray_color` bounces a ray through the scene down to a depth
//! bound; `render` walks the image row-major, while `render_multithreaded`
//! computes the rows in parallel and joins them strictly in row order.
//! Angles reach the camera as half-angle tangents — plain values a
//! collaborator computes — since the fixed-point core has no trigonometry.

use vstd::prelude::*;
use crate::color::Color;
use crate::fixed::SCALE;
use crate::fixed::fmul;
use crate::fixed::fx_mul;
use crate::fixed::ix_div;
use crate::fixed::lemma_fmul_range;
use crate::fixed::lemma_fmul_unit;
use crate::fixed::tdiv;
use crate::hittable::DIR_RANGE;
use crate::hittable::HitV;
use crate::hittable::POS_RANGE;
use crate::hittable::T_RANGE;
use crate::hittable_list::HittableList;
use crate::hittable_list::lemma_list_hit_upto_props;
use crate::hittable_list::s_list_hit;
use crate::hittable_list::s_scene_wf;
use crate::material::Material;
use crate::material::s_color01;
use crate::material::s_mat_wf;
use crate::ray::R3;
use crate::ray::Ray;
use crate::rtweekend::random_double;
use crate::sphere::Sphere;
use crate::vec3::UNIT_RANGE;
use crate::vec3::V3;
use crate::vec3::Vec3;
use crate::vec3::s_addv;
use crate::vec3::s_clamp1;
use crate::vec3::s_cross;
use crate::vec3::s_divn;
use crate::vec3::s_in_range;
use crate::vec3::s_negv;
use crate::vec3::s_scalev;
use crate::vec3::s_subv;
use crate::vec3::s_unit;
use crate::vec3::s_zero;

use rayon::iter::IntoParallelIterator;
use rayon::iter::ParallelIterator;

verus! {

/// The shadow-acne guard: scattered rays only count beyond this parameter.
pub const SHADOW_EPS: i64 = 66;

/// Half of one whole unit.
pub const HALF: i64 = 32768;

/// Rejected camera configurations.
#[derive(Clone, Copy, Debug, PartialEq, Eq, Structural)]
pub enum CameraError {
    /// The aspect ratio must be positive.
    InvalidAspect,
    /// The image width must be positive.
    InvalidWidth,
    /// Either image dimension came out below two pixels (the pixel grid
    /// would divide by zero) or the height left the supported band.
    InvalidDimensions,
    /// The view basis is degenerate: the look direction has no length, or
    /// the up vector is parallel to it.
    DegenerateView,
}

/// A finished image: quantized RGB triples in row-major order.
pub struct Image {
    pub width: usize,
    pub height: usize,
    pub pixels: Vec<(i32, i32, i32)>,
}

/// One quantized pixel.
pub open spec fn s_rgb_ok(p: (i32, i32, i32)) -> bool {
    &&& 0 <= p.0 <= 255
    &&& 0 <= p.1 <= 255
    &&& 0 <= p.2 <= 255
}

/// The vertical sky gradient: blend white and light blue by the unit
/// direction's vertical component, with the blend factor held in [0, 1].
pub open spec fn s_sky(r: R3) -> V3 {
    let u = s_unit(r.dir);
    let a = s_clamp1(fmul(HALF as int, u.y + SCALE), 0, SCALE as int);
    s_addv(
        s_scalev(SCALE - a, V3 { x: SCALE as int, y: SCALE as int, z: SCALE as int }),
        s_scalev(a, V3 { x: HALF as int, y: 45875, z: SCALE as int }),
    )
}

/// Rays the tracer works on: origin and direction inside the scene
/// envelope. `ray_color` shades a ray outside it black, so a configuration
/// whose viewport outruns the envelope (an extreme field of view times a
/// far focus plane) darkens rather than overflows; sane configurations stay
/// well inside.
pub open spec fn s_ray_in_env(r: R3) -> bool {
    &&& s_in_range(r.orig, POS_RANGE as int)
    &&& s_in_range(r.dir, DIR_RANGE as int)
}

/// The derived image height: width over aspect ratio, floored, at least one.
pub open spec fn s_image_height(width: int, aspect: int) -> int {
    let h = tdiv(width * SCALE, aspect);
    if h < 1 {
        1
    } else {
        h
    }
}

/// The ray the camera builds for pixel (i, j) from given draws: jitter
/// offsets `ox`, `oy` displace the pixel centre along the pixel steps, and
/// (when depth of field is on) `px`, `py` place the origin on the defocus
/// disk.
pub open spec fn s_get_ray(c: Camera, i: int, j: int, ox: int, oy: int, px: int, py: int) -> R3 {
    let ki = i * SCALE + ox;
    let kj = j * SCALE + oy;
    let pixel_sample = s_addv(
        s_addv(c.pixel00_loc@, s_scalev(ki, c.pixel_delta_u@)),
        s_scalev(kj, c.pixel_delta_v@),
    );
    let orig = if c.defocus_tan_half > 0 {
        s_addv(
            s_addv(c.center@, s_scalev(px, c.defocus_disk_u@)),
            s_scalev(py, c.defocus_disk_v@),
        )
    } else {
        c.center@
    };
    R3 { orig, dir: s_subv(pixel_sample, orig) }
}

/// A box-filter jitter draw: half a pixel each way.
pub open spec fn s_jitter_ok(o: int) -> bool {
    -HALF <= o < HALF
}

/// A defocus-disk draw: a point strictly inside the unit disk.
pub open spec fn s_disk_ok(px: int, py: int) -> bool {
    &&& -SCALE <= px <= SCALE
    &&& -SCALE <= py <= SCALE
    &&& crate::vec3::s_len_sq(V3 { x: px, y: py, z: 0 }) < SCALE
}

/// The rays `get_ray` can hand back for pixel (i, j): exactly those of
/// `s_get_ray` under some admissible jitter and disk draw.
pub open spec fn s_ray_from_pixel(c: Camera, i: int, j: int, r: R3) -> bool {
    exists|ox: int, oy: int, px: int, py: int|
        s_jitter_ok(ox) && s_jitter_ok(oy) && s_disk_ok(px, py) && r == s_get_ray(
            c,
            i,
            j,
            ox,
            oy,
            px,
            py,
        )
}

/// What a successful scatter of material `mat` at hit `h` can produce,
/// whatever was drawn: the attenuation each material owes, and a direction
/// inside the representable range — pointing out of the surface for metal.
pub open spec fn s_scatter_res_ok(mat: Material, h: HitV, att: V3, sdir: V3) -> bool {
    &&& s_color01(att)
    &&& s_in_range(sdir, 0x2_0000_0000)
    &&& match mat {
        Material::Lambertian(l) => att == l.albedo@,
        Material::Metal(m) => att == m.albedo@ && crate::vec3::s_dot(sdir, h.normal) > 0,
        Material::Dielectric(_) => att == (V3 {
            x: SCALE as int,
            y: SCALE as int,
            z: SCALE as int,
        }),
    }
}

/// The colours `ray_color` can return, whatever is drawn along the way.
/// Exhausted depth and out-of-envelope rays are black; a miss is exactly
/// the sky gradient; a hit is either absorbed (metal only) or the scatter's
/// attenuation times some admissible colour of the bounced ray.
pub open spec fn s_ray_color_ok(objs: Seq<Sphere>, r: R3, depth: int, c: V3) -> bool
    decreases depth,
{
    if depth <= 0 {
        c == s_zero()
    } else if !s_ray_in_env(r) {
        c == s_zero()
    } else {
        match s_list_hit(objs, r, SHADOW_EPS as int, T_RANGE as int) {
            None => c == s_sky(r),
            Some(h) => (h.mat matches Material::Metal(_) && c == s_zero()) || exists|
                att: V3,
                sdir: V3,
                c2: V3,
            |
                s_scatter_res_ok(h.mat, h, att, sdir) && s_ray_color_ok(
                    objs,
                    R3 { orig: h.p, dir: sdir },
                    depth - 1,
                    c2,
                ) && c == crate::color::s_attenuate(att, c2),
        }
    }
}

/// The componentwise sum of a sequence of colours.
pub open spec fn s_sum_colors(s: Seq<V3>) -> V3
    decreases s.len(),
{
    if s.len() == 0 {
        s_zero()
    } else {
        s_addv(s_sum_colors(s.drop_last()), s.last())
    }
}

/// The colours one sample of pixel (i, j) can contribute: the colour of an
/// admissible camera ray for the pixel, traced to the camera's depth bound.
pub open spec fn s_sample_ok(c: Camera, objs: Seq<Sphere>, i: int, j: int, col: V3) -> bool {
    exists|r: R3| s_ray_from_pixel(c, i, j, r) && s_ray_color_ok(objs, r, c.max_depth as int, col)
}

/// The quantized triples pixel (i, j) can take: the gamma-corrected
/// quantization of the average of `samples_per_pixel` admissible sample
/// colours.
pub open spec fn s_pixel_ok(
    c: Camera,
    objs: Seq<Sphere>,
    i: int,
    j: int,
    pix: (i32, i32, i32),
) -> bool {
    exists|samples: Seq<V3>|
        {
            &&& samples.len() == c.samples_per_pixel
            &&& forall|k: int|
                0 <= k < samples.len() ==> s_sample_ok(c, objs, i, j, #[trigger] samples[k])
            &&& pix.0 == crate::color::s_quantize1(
                fmul(c.pixel_sample_scale as int, s_sum_colors(samples).x),
                true,
            )
            &&& pix.1 == crate::color::s_quantize1(
                fmul(c.pixel_sample_scale as int, s_sum_colors(samples).y),
                true,
            )
            &&& pix.2 == crate::color::s_quantize1(
                fmul(c.pixel_sample_scale as int, s_sum_colors(samples).z),
                true,
            )
        }
}

/// A fully rendered scanline: one admissible quantized pixel per column.
pub open spec fn s_rendered_row(
    c: Camera,
    objs: Seq<Sphere>,
    j: int,
    row: Seq<(i32, i32, i32)>,
) -> bool {
    &&& row.len() == c.image_width
    &&& forall|i: int|
        0 <= i < row.len() ==> s_rgb_ok(#[trigger] row[i]) && s_pixel_ok(c, objs, i, j, row[i])
}

/// The camera's derived render state.
pub struct CamV {
    pub image_height: int,
    pub pixel_sample_scale: int,
    pub center: V3,
    pub pixel00_loc: V3,
    pub pixel_delta_u: V3,
    pub pixel_delta_v: V3,
    pub defocus_disk_u: V3,
    pub defocus_disk_v: V3,
}

/// Everything `initialize` derives, as a function of the configuration.
pub open spec fn s_camera_setup(
    aspect: int,
    width: int,
    samples: int,
    tan_half_vfov: int,
    lookfrom: V3,
    lookat: V3,
    vup: V3,
    defocus_tan_half: int,
    focus_dist: int,
) -> CamV {
    let h = s_image_height(width, aspect);
    let w_axis = s_unit(s_subv(lookfrom, lookat));
    let u_axis = s_unit(s_cross(vup, w_axis));
    let v_axis = s_cross(w_axis, u_axis);
    let viewport_height = 2 * fmul(tan_half_vfov, focus_dist);
    let ratio = tdiv(width * SCALE, h);
    let viewport_width = fmul(viewport_height, ratio);
    let viewport_u = s_scalev(viewport_width, u_axis);
    let viewport_v = s_scalev(viewport_height, s_negv(v_axis));
    let du = s_divn(viewport_u, width - 1);
    let dv = s_divn(viewport_v, h - 1);
    let upper_left = s_subv(
        s_subv(s_subv(lookfrom, s_scalev(focus_dist, w_axis)), s_divn(viewport_u, 2)),
        s_divn(viewport_v, 2),
    );
    let defocus_radius = fmul(focus_dist, defocus_tan_half);
    CamV {
        image_height: h,
        pixel_sample_scale: tdiv(SCALE as int, samples),
        center: lookfrom,
        pixel00_loc: s_addv(upper_left, s_scalev(HALF as int, s_addv(du, dv))),
        pixel_delta_u: du,
        pixel_delta_v: dv,
        defocus_disk_u: s_scalev(defocus_radius, u_axis),
        defocus_disk_v: s_scalev(defocus_radius, v_axis),
    }
}

/// The camera: public configuration and private derived state, the latter
/// recomputed by `initialize` before each render.
#[derive(Clone, Copy, Debug)]
pub struct Camera {
    pub aspect_ratio: i64,
    pub image_width: usize,
    pub samples_per_pixel: usize,
    pub max_depth: u32,
    /// Tangent of half the vertical field of view (a plain value; the
    /// caller converts from degrees).
    pub tan_half_vfov: i64,
    pub lookfrom: Vec3,
    pub lookat: Vec3,
    pub vup: Vec3,
    /// Tangent of half the defocus (aperture) angle; zero disables depth of
    /// field.
    pub defocus_tan_half: i64,
    pub focus_dist: i64,
    /// Derived by `initialize`; read-only during a render.
    pub image_height: usize,
    /// Derived by `initialize`; read-only during a render.
    pub pixel_sample_scale: i64,
    /// Derived by `initialize`; read-only during a render.
    pub center: Vec3,
    /// Derived by `initialize`; read-only during a render.
    pub pixel00_loc: Vec3,
    /// Derived by `initialize`; read-only during a render.
    pub pixel_delta_u: Vec3,
    /// Derived by `initialize`; read-only during a render.
    pub pixel_delta_v: Vec3,
    /// Derived by `initialize`; read-only during a render.
    pub defocus_disk_u: Vec3,
    /// Derived by `initialize`; read-only during a render.
    pub defocus_disk_v: Vec3,
}

/// The machine limits a configuration must respect: dimensions and sampling
/// counts that fit the renderer's index arithmetic, angles and distances
/// inside the fixed-point envelope.
pub open spec fn s_cam_config_ok(c: Camera) -> bool {
    &&& c.image_width <= 4096
    &&& 1 <= c.samples_per_pixel <= 1024
    &&& c.max_depth <= 64
    &&& 0 <= c.tan_half_vfov <= 0x8_0000
    &&& s_in_range(c.lookfrom@, 0x40_0000)
    &&& s_in_range(c.lookat@, 0x40_0000)
    &&& s_in_range(c.vup@, 0x40_0000)
    &&& 0 <= c.defocus_tan_half <= SCALE
    &&& 4096 <= c.focus_dist <= 0x10_0000
}

/// Which rejection, if any, a configuration earns, checked in the order the
/// renderer applies: a non-positive aspect ratio, a zero width, a pixel grid
/// with a dimension below two or a height beyond the supported band, and a
/// degenerate view basis (no look direction, or an up vector parallel to it).
pub open spec fn s_cam_validate(c: Camera) -> Option<CameraError> {
    let h = s_image_height(c.image_width as int, c.aspect_ratio as int);
    let w_axis = s_unit(s_subv(c.lookfrom@, c.lookat@));
    if c.aspect_ratio <= 0 {
        Some(CameraError::InvalidAspect)
    } else if c.image_width == 0 {
        Some(CameraError::InvalidWidth)
    } else if c.image_width < 2 || h < 2 || h > 0x10_0000 {
        Some(CameraError::InvalidDimensions)
    } else if crate::vec3::s_near_zero(w_axis) {
        Some(CameraError::DegenerateView)
    } else if crate::vec3::s_near_zero(s_unit(s_cross(c.vup@, w_axis))) {
        Some(CameraError::DegenerateView)
    } else {
        None
    }
}

/// The derived state, as the specification sees it.
pub open spec fn s_cam_state(c: Camera) -> CamV {
    CamV {
        image_height: c.image_height as int,
        pixel_sample_scale: c.pixel_sample_scale as int,
        center: c.center@,
        pixel00_loc: c.pixel00_loc@,
        pixel_delta_u: c.pixel_delta_u@,
        pixel_delta_v: c.pixel_delta_v@,
        defocus_disk_u: c.defocus_disk_u@,
        defocus_disk_v: c.defocus_disk_v@,
    }
}

/// A camera whose derived state is in place and inside the ranges the ray
/// generator needs.
pub open spec fn s_cam_ready(c: Camera) -> bool {
    &&& s_cam_config_ok(c)
    &&& 2 <= c.image_width
    &&& 2 <= c.image_height <= 0x10_0000
    &&& 0 <= c.pixel_sample_scale <= SCALE
    &&& s_in_range(c.center@, 0x40_0000)
    &&& s_in_range(c.pixel00_loc@, 0x80_0000_0000)
    &&& s_in_range(c.pixel_delta_u@, 0x40_0000_0000)
    &&& s_in_range(c.pixel_delta_v@, 0x40_0000_0000)
    &&& s_in_range(c.defocus_disk_u@, 0x40_0000)
    &&& s_in_range(c.defocus_disk_v@, 0x80_0000)
}

/// The number of rows a ready camera will render.
pub open spec fn s_cam_height(c: Camera) -> int {
    c.image_height as int
}

impl Default for Camera {
    /// A 400-pixel-wide 16:9 camera at the origin, looking down the negative
    /// z axis with a 90-degree field of view, ten samples per pixel and a
    /// bounce budget of ten; no depth of field.
    fn default() -> (c: Self)
        ensures
            s_cam_config_ok(c),
            c.image_width == 400,
            c.samples_per_pixel == 10,
            c.max_depth == 10,
            c.aspect_ratio == 116508,
            c.tan_half_vfov == SCALE,
            c.defocus_tan_half == 0,
            c.focus_dist == SCALE,
            c.lookfrom@ == s_zero(),
            c.lookat@ == (V3 { x: 0, y: 0, z: -SCALE as int }),
            c.vup@ == (V3 { x: 0, y: SCALE as int, z: 0 }),
            c.image_height == 0,
            c.pixel_sample_scale == SCALE,
            c.center@ == s_zero(),
            c.pixel00_loc@ == s_zero(),
            c.pixel_delta_u@ == s_zero(),
            c.pixel_delta_v@ == s_zero(),
            c.defocus_disk_u@ == s_zero(),
            c.defocus_disk_v@ == s_zero(),
    {
        Self {
            aspect_ratio: 116508,
            image_width: 400,
            samples_per_pixel: 10,
            max_depth: 10,
            tan_half_vfov: SCALE,
            lookfrom: Vec3::new(0, 0, 0),
            lookat: Vec3::new(0, 0, -SCALE),
            vup: Vec3::new(0, SCALE, 0),
            defocus_tan_half: 0,
            focus_dist: SCALE,
            image_height: 0,
            pixel_sample_scale: SCALE,
            center: Vec3::zero(),
            pixel00_loc: Vec3::zero(),
            pixel_delta_u: Vec3::zero(),
            pixel_delta_v: Vec3::zero(),
            defocus_disk_u: Vec3::zero(),
            defocus_disk_v: Vec3::zero(),
        }
    }
}

impl Camera {
    /// A default camera with the given width, aspect ratio and sample count.
    pub fn new_with(image_width: usize, aspect_ratio: i64, samples_per_pixel: usize) -> (c: Self)
        ensures
            c.image_width == image_width,
            c.aspect_ratio == aspect_ratio,
            c.samples_per_pixel == samples_per_pixel,
            c.max_depth == 10,
            c.tan_half_vfov == SCALE,
            c.defocus_tan_half == 0,
            c.focus_dist == SCALE,
            c.lookfrom@ == s_zero(),
            c.lookat@ == (V3 { x: 0, y: 0, z: -SCALE as int }),
            c.vup@ == (V3 { x: 0, y: SCALE as int, z: 0 }),
            c.image_height == 0,
            c.pixel_sample_scale == SCALE,
            c.center@ == s_zero(),
            c.pixel00_loc@ == s_zero(),
            c.pixel_delta_u@ == s_zero(),
            c.pixel_delta_v@ == s_zero(),
            c.defocus_disk_u@ == s_zero(),
            c.defocus_disk_v@ == s_zero(),
            image_width <= 4096 && 1 <= samples_per_pixel <= 1024 ==> s_cam_config_ok(c),
    {
        let mut c = Self::default();
        c.image_width = image_width;
        c.aspect_ratio = aspect_ratio;
        c.samples_per_pixel = samples_per_pixel;
        c
    }

    /// Whether the configuration respects the machine limits that `render`
    /// asks for: width at most 4096, one to 1024 samples, depth at most 64,
    /// and angles, distances and points inside the fixed-point envelope.
    pub fn config_ok(&self) -> (b: bool)
        ensures
            b == s_cam_config_ok(*self),
    {
        self.image_width <= 4096 && 1 <= self.samples_per_pixel && self.samples_per_pixel <= 1024
            && self.max_depth <= 64 && 0 <= self.tan_half_vfov && self.tan_half_vfov <= 0x8_0000
            && self.lookfrom.in_range(0x40_0000) && self.lookat.in_range(0x40_0000)
            && self.vup.in_range(0x40_0000) && 0 <= self.defocus_tan_half
            && self.defocus_tan_half <= SCALE && 4096 <= self.focus_dist && self.focus_dist
            <= 0x10_0000
    }

    /// Derive the render state from the configuration, validating it first:
    /// a non-positive aspect ratio or a zero width is refused; so is a
    /// derived pixel grid too small to span (either dimension below two) or
    /// too tall for the index arithmetic; so is a view basis without a
    /// usable look direction or up vector.
    fn initialize(&mut self) -> (res: Result<(), CameraError>)
        requires
            s_cam_config_ok(*old(self)),
        ensures
            final(self).aspect_ratio == old(self).aspect_ratio,
            final(self).image_width == old(self).image_width,
            final(self).samples_per_pixel == old(self).samples_per_pixel,
            final(self).max_depth == old(self).max_depth,
            final(self).tan_half_vfov == old(self).tan_half_vfov,
            final(self).lookfrom == old(self).lookfrom,
            final(self).lookat == old(self).lookat,
            final(self).vup == old(self).vup,
            final(self).defocus_tan_half == old(self).defocus_tan_half,
            final(self).focus_dist == old(self).focus_dist,
            s_cam_config_ok(*final(self)),
            res matches Err(e) ==> *final(self) == *old(self),
            res is Err <==> s_cam_validate(*old(self)) is Some,
            res matches Err(e) ==> Some(e) == s_cam_validate(*old(self)),
            res is Ok ==> {
                &&& s_cam_ready(*final(self))
                &&& s_cam_state(*final(self)) == s_camera_setup(
                    old(self).aspect_ratio as int,
                    old(self).image_width as int,
                    old(self).samples_per_pixel as int,
                    old(self).tan_half_vfov as int,
                    old(self).lookfrom@,
                    old(self).lookat@,
                    old(self).vup@,
                    old(self).defocus_tan_half as int,
                    old(self).focus_dist as int,
                )
                &&& s_cam_height(*final(self)) == s_image_height(
                    old(self).image_width as int,
                    old(self).aspect_ratio as int,
                )
            },
    {
        if self.aspect_ratio <= 0 {
            return Err(CameraError::InvalidAspect);
        }
        if self.image_width == 0 {
            return Err(CameraError::InvalidWidth);
        }
        let w_i = self.image_width as i64;
        let mut height = ix_div(w_i * SCALE, self.aspect_ratio);
        if height < 1 {
            height = 1;
        }
        if self.image_width < 2 || height < 2 || height > 0x10_0000 {
            return Err(CameraError::InvalidDimensions);
        }
        let look = self.lookfrom.sub(&self.lookat);
        let w_axis = look.unit_vector();
        if w_axis.near_zero() {
            return Err(CameraError::DegenerateView);
        }
        let up_cross = self.vup.cross(&w_axis);
        proof {
            lemma_fmul_range(self.vup@.y, w_axis@.z, 0x40_0000, 131072, 0x80_0000);
            lemma_fmul_range(self.vup@.z, w_axis@.y, 0x40_0000, 131072, 0x80_0000);
            lemma_fmul_range(self.vup@.z, w_axis@.x, 0x40_0000, 131072, 0x80_0000);
            lemma_fmul_range(self.vup@.x, w_axis@.z, 0x40_0000, 131072, 0x80_0000);
            lemma_fmul_range(self.vup@.x, w_axis@.y, 0x40_0000, 131072, 0x80_0000);
            lemma_fmul_range(self.vup@.y, w_axis@.x, 0x40_0000, 131072, 0x80_0000);
        }
        let u_axis = up_cross.unit_vector();
        if u_axis.near_zero() {
            return Err(CameraError::DegenerateView);
        }
        self.derive_state(height, w_axis, u_axis);
        Ok(())
    }

    /// Compute the derived render state from a validated configuration and
    /// the view basis's first two axes.
    #[verifier::rlimit(100)]
    fn derive_state(&mut self, height: i64, w_axis: Vec3, u_axis: Vec3)
        requires
            s_cam_config_ok(*old(self)),
            2 <= old(self).image_width,
            height == s_image_height(old(self).image_width as int, old(self).aspect_ratio as int),
            2 <= height <= 0x10_0000,
            w_axis@ == s_unit(s_subv(old(self).lookfrom@, old(self).lookat@)),
            u_axis@ == s_unit(s_cross(old(self).vup@, w_axis@)),
            s_in_range(w_axis@, UNIT_RANGE as int),
            s_in_range(u_axis@, UNIT_RANGE as int),
        ensures
            final(self).aspect_ratio == old(self).aspect_ratio,
            final(self).image_width == old(self).image_width,
            final(self).samples_per_pixel == old(self).samples_per_pixel,
            final(self).max_depth == old(self).max_depth,
            final(self).tan_half_vfov == old(self).tan_half_vfov,
            final(self).lookfrom == old(self).lookfrom,
            final(self).lookat == old(self).lookat,
            final(self).vup == old(self).vup,
            final(self).defocus_tan_half == old(self).defocus_tan_half,
            final(self).focus_dist == old(self).focus_dist,
            s_cam_ready(*final(self)),
            s_cam_state(*final(self)) == s_camera_setup(
                old(self).aspect_ratio as int,
                old(self).image_width as int,
                old(self).samples_per_pixel as int,
                old(self).tan_half_vfov as int,
                old(self).lookfrom@,
                old(self).lookat@,
                old(self).vup@,
                old(self).defocus_tan_half as int,
                old(self).focus_dist as int,
            ),
            s_cam_height(*final(self)) == s_image_height(
                old(self).image_width as int,
                old(self).aspect_ratio as int,
            ),
    {
        let w_i = self.image_width as i64;
        let v_axis = w_axis.cross(&u_axis);
        proof {
            lemma_fmul_range(w_axis@.y, u_axis@.z, 131072, 131072, 262144);
            lemma_fmul_range(w_axis@.z, u_axis@.y, 131072, 131072, 262144);
            lemma_fmul_range(w_axis@.z, u_axis@.x, 131072, 131072, 262144);
            lemma_fmul_range(w_axis@.x, u_axis@.z, 131072, 131072, 262144);
            lemma_fmul_range(w_axis@.x, u_axis@.y, 131072, 131072, 262144);
            lemma_fmul_range(w_axis@.y, u_axis@.x, 131072, 131072, 262144);
        }
        proof {
            lemma_fmul_range(
                self.tan_half_vfov as int,
                self.focus_dist as int,
                0x8_0000,
                0x10_0000,
                0x80_0000,
            );
        }
        let vh_half = fx_mul(self.tan_half_vfov, self.focus_dist);
        let viewport_height = 2 * vh_half;
        let ratio = ix_div(w_i * SCALE, height);
        proof {
            lemma_fmul_range(
                viewport_height as int,
                ratio as int,
                0x100_0000,
                0x1000_0000,
                0x10_0000_0000,
            );
        }
        let viewport_width = fx_mul(viewport_height, ratio);
        proof {
            lemma_fmul_range(viewport_width as int, u_axis@.x, 0x10_0000_0000, 262144, 0x40_0000_0000);
            lemma_fmul_range(viewport_width as int, u_axis@.y, 0x10_0000_0000, 262144, 0x40_0000_0000);
            lemma_fmul_range(viewport_width as int, u_axis@.z, 0x10_0000_0000, 262144, 0x40_0000_0000);
            lemma_fmul_range(viewport_height as int, -v_axis@.x, 0x100_0000, 0x8_0000, 0x800_0000);
            lemma_fmul_range(viewport_height as int, -v_axis@.y, 0x100_0000, 0x8_0000, 0x800_0000);
            lemma_fmul_range(viewport_height as int, -v_axis@.z, 0x100_0000, 0x8_0000, 0x800_0000);
        }
        let viewport_u = u_axis.scale(viewport_width);
        let viewport_v = v_axis.neg().scale(viewport_height);
        let du = viewport_u.div_n(w_i - 1);
        let dv = viewport_v.div_n(height - 1);
        proof {
            lemma_fmul_range(self.focus_dist as int, w_axis@.x, 0x10_0000, 131072, 0x20_0000);
            lemma_fmul_range(self.focus_dist as int, w_axis@.y, 0x10_0000, 131072, 0x20_0000);
            lemma_fmul_range(self.focus_dist as int, w_axis@.z, 0x10_0000, 131072, 0x20_0000);
        }
        let focus_w = w_axis.scale(self.focus_dist);
        let upper_left = self.lookfrom.sub(&focus_w).sub(&viewport_u.div_n(2)).sub(
            &viewport_v.div_n(2),
        );
        proof {
            lemma_fmul_range(HALF as int, du@.x + dv@.x, HALF as int, 0x48_0000_0000, 0x24_0000_0000);
            lemma_fmul_range(HALF as int, du@.y + dv@.y, HALF as int, 0x48_0000_0000, 0x24_0000_0000);
            lemma_fmul_range(HALF as int, du@.z + dv@.z, HALF as int, 0x48_0000_0000, 0x24_0000_0000);
        }
        let half_step = du.add(&dv).scale(HALF);
        let pixel00 = upper_left.add(&half_step);
        proof {
            lemma_fmul_range(
                self.focus_dist as int,
                self.defocus_tan_half as int,
                0x10_0000,
                SCALE as int,
                0x10_0000,
            );
        }
        let defocus_radius = fx_mul(self.focus_dist, self.defocus_tan_half);
        proof {
            lemma_fmul_range(defocus_radius as int, u_axis@.x, 0x10_0000, 262144, 0x40_0000);
            lemma_fmul_range(defocus_radius as int, u_axis@.y, 0x10_0000, 262144, 0x40_0000);
            lemma_fmul_range(defocus_radius as int, u_axis@.z, 0x10_0000, 262144, 0x40_0000);
            lemma_fmul_range(defocus_radius as int, v_axis@.x, 0x10_0000, 0x8_0000, 0x80_0000);
            lemma_fmul_range(defocus_radius as int, v_axis@.y, 0x10_0000, 0x8_0000, 0x80_0000);
            lemma_fmul_range(defocus_radius as int, v_axis@.z, 0x10_0000, 0x8_0000, 0x80_0000);
        }
        self.image_height = height as usize;
        self.pixel_sample_scale = ix_div(SCALE, self.samples_per_pixel as i64);
        self.center = self.lookfrom;
        self.pixel00_loc = pixel00;
        self.pixel_delta_u = du;
        self.pixel_delta_v = dv;
        self.defocus_disk_u = u_axis.scale(defocus_radius);
        self.defocus_disk_v = v_axis.scale(defocus_radius);
    }

    /// A jittered ray through pixel (i, j): the pixel centre displaced by a
    /// uniform offset in half a pixel each way, originating at the camera
    /// centre, or on the defocus disk when depth of field is on.
    fn get_ray(&self, i: usize, j: usize) -> (r: Ray)
        requires
            s_cam_ready(*self),
            i < self.image_width,
            j < s_cam_height(*self),
        ensures
            s_in_range(r@.orig, 0x200_0000),
            s_ray_from_pixel(*self, i as int, j as int, r@),
    {
        let ox = random_double() - HALF;
        let oy = random_double() - HALF;
        let ki = (i as i64) * SCALE + ox;
        let kj = (j as i64) * SCALE + oy;
        proof {
            lemma_fmul_range(ki as int, self.pixel_delta_u@.x, 0x2000_0000, 0x40_0000_0000, 0x8_0000_0000_0000);
            lemma_fmul_range(ki as int, self.pixel_delta_u@.y, 0x2000_0000, 0x40_0000_0000, 0x8_0000_0000_0000);
            lemma_fmul_range(ki as int, self.pixel_delta_u@.z, 0x2000_0000, 0x40_0000_0000, 0x8_0000_0000_0000);
            lemma_fmul_range(kj as int, self.pixel_delta_v@.x, 0x20_0000_0000, 0x40_0000_0000, 0x800_0000_0000_0000);
            lemma_fmul_range(kj as int, self.pixel_delta_v@.y, 0x20_0000_0000, 0x40_0000_0000, 0x800_0000_0000_0000);
            lemma_fmul_range(kj as int, self.pixel_delta_v@.z, 0x20_0000_0000, 0x40_0000_0000, 0x800_0000_0000_0000);
        }
        let su = self.pixel_delta_u.scale(ki);
        let sv = self.pixel_delta_v.scale(kj);
        let pixel_sample = self.pixel00_loc.add(&su).add(&sv);
        let ghost mut disk_draw: (int, int) = (0, 0);
        proof {
            assert(fmul(0, 0) == 0);
            assert(s_disk_ok(0, 0));
        }
        let ray_origin = if self.defocus_tan_half > 0 {
            let p = Vec3::random_in_unit_disk();
            proof {
                lemma_fmul_range(p@.x, self.defocus_disk_u@.x, SCALE as int, 0x40_0000, 0x40_0000);
                lemma_fmul_range(p@.x, self.defocus_disk_u@.y, SCALE as int, 0x40_0000, 0x40_0000);
                lemma_fmul_range(p@.x, self.defocus_disk_u@.z, SCALE as int, 0x40_0000, 0x40_0000);
                lemma_fmul_range(p@.y, self.defocus_disk_v@.x, SCALE as int, 0x80_0000, 0x80_0000);
                lemma_fmul_range(p@.y, self.defocus_disk_v@.y, SCALE as int, 0x80_0000, 0x80_0000);
                lemma_fmul_range(p@.y, self.defocus_disk_v@.z, SCALE as int, 0x80_0000, 0x80_0000);
            }
            let du = self.defocus_disk_u.scale(p.x);
            let dv = self.defocus_disk_v.scale(p.y);
            proof {
                disk_draw = (p@.x, p@.y);
            }
            self.center.add(&du).add(&dv)
        } else {
            self.center
        };
        let ray_direction = pixel_sample.sub(&ray_origin);
        let r = Ray::new(ray_origin, ray_direction);
        proof {
            let (px, py) = disk_draw;
            assert(s_jitter_ok(ox as int) && s_jitter_ok(oy as int) && s_disk_ok(px, py));
            assert(r@ == s_get_ray(*self, i as int, j as int, ox as int, oy as int, px, py));
        }
        r
    }

    /// Recursive light transport. Exhausted depth is black; a miss inside
    /// the envelope is the sky gradient; a hit scatters by its material and
    /// attenuates the colour of the continuation, black when absorbed. The
    /// result always lies in the unit colour cube.
    pub fn ray_color(r: &Ray, world: &HittableList, depth: u32) -> (c: Color)
        requires
            s_scene_wf(world.objects@),
        ensures
            s_color01(c@),
            s_ray_color_ok(world.objects@, r@, depth as int, c@),
            depth == 0 ==> c@ == s_zero(),
            depth > 0 && !s_ray_in_env(r@) ==> c@ == s_zero(),
            depth > 0 && s_ray_in_env(r@) && s_list_hit(
                world.objects@,
                r@,
                SHADOW_EPS as int,
                T_RANGE as int,
            ) is None ==> c@ == s_sky(r@),
        decreases depth,
    {
        if depth == 0 {
            return Color::new(0, 0, 0);
        }
        if !(r.origin.in_range(POS_RANGE) && r.direction.in_range(DIR_RANGE)) {
            return Color::new(0, 0, 0);
        }
        if let Some(rec) = world.hit(r, SHADOW_EPS, T_RANGE) {
            proof {
                lemma_list_hit_upto_props(
                    world.objects@,
                    r@,
                    SHADOW_EPS as int,
                    T_RANGE as int,
                    world.objects@.len() as int,
                );
                let k = choose|k: int|
                    0 <= k < world.objects@.len() && world.objects@[k].mat == rec@.mat;
                assert(s_mat_wf(world.objects@[k].mat));
            }
            if let Some((attenuation, scattered)) = rec.mat.scatter(r, &rec) {
                let bounced = Self::ray_color(&scattered, world, depth - 1);
                proof {
                    lemma_fmul_unit(attenuation@.x, bounced@.x);
                    lemma_fmul_unit(attenuation@.y, bounced@.y);
                    lemma_fmul_unit(attenuation@.z, bounced@.z);
                }
                let result = attenuation.attenuate(&bounced);
                proof {
                    assert(s_scatter_res_ok(rec@.mat, rec@, attenuation@, scattered@.dir));
                    assert(scattered@ == (R3 { orig: rec@.p, dir: scattered@.dir }));
                    assert(s_ray_color_ok(world.objects@, scattered@, depth - 1, bounced@));
                    assert(result@ == crate::color::s_attenuate(attenuation@, bounced@));
                }
                return result;
            }
            return Color::new(0, 0, 0);
        }
        let unit_direction = r.direction.unit_vector();
        let a_raw = fx_mul(HALF, unit_direction.y + SCALE);
        let a = if a_raw < 0 {
            0
        } else if a_raw > SCALE {
            SCALE
        } else {
            a_raw
        };
        let white = Vec3::new(SCALE, SCALE, SCALE);
        let blue = Vec3::new(HALF, 45875, SCALE);
        proof {
            lemma_fmul_unit((SCALE - a) as int, SCALE as int);
            lemma_fmul_range((SCALE - a) as int, SCALE as int, (SCALE - a) as int, SCALE as int, (SCALE - a) as int);
            lemma_fmul_range(a as int, HALF as int, a as int, SCALE as int, a as int);
            lemma_fmul_range(a as int, 45875, a as int, SCALE as int, a as int);
            lemma_fmul_range(a as int, SCALE as int, a as int, SCALE as int, a as int);
            lemma_fmul_unit(a as int, HALF as int);
            lemma_fmul_unit(a as int, 45875);
            lemma_fmul_unit(a as int, SCALE as int);
        }
        let c = white.scale(SCALE - a).add(&blue.scale(a));
        Color::of_vec3(c)
    }
}

/// The outcome contract has consequences without reference to any draw: a
/// ray that strikes a diffuse surface of zero albedo comes back black,
/// whatever was drawn along the way.
pub proof fn lemma_zero_albedo_hit_is_black(objs: Seq<Sphere>, r: R3, depth: int, c: V3)
    requires
        s_ray_color_ok(objs, r, depth, c),
        depth > 0,
        s_ray_in_env(r),
        s_list_hit(objs, r, SHADOW_EPS as int, T_RANGE as int) matches Some(h) && h.mat
            == Material::Lambertian(crate::material::Lambertian {
            albedo: crate::color::Color(Vec3 { x: 0, y: 0, z: 0 }),
        }),
    ensures
        c == s_zero(),
{
    let h = s_list_hit(objs, r, SHADOW_EPS as int, T_RANGE as int)->Some_0;
    let (att, sdir, c2) = choose|att: V3, sdir: V3, c2: V3|
        s_scatter_res_ok(h.mat, h, att, sdir) && s_ray_color_ok(
            objs,
            R3 { orig: h.p, dir: sdir },
            depth - 1,
            c2,
        ) && c == crate::color::s_attenuate(att, c2);
    assert(att == s_zero());
    assert(0 * c2.x == 0 && 0 * c2.y == 0 && 0 * c2.z == 0) by (nonlinear_arith);
}

/// One row of quantized pixels.
pub open spec fn s_row_ok(row: Seq<(i32, i32, i32)>, width: int) -> bool {
    &&& row.len() == width
    &&& forall|i: int| 0 <= i < row.len() ==> s_rgb_ok(#[trigger] row[i])
}

/// Render one scanline: per pixel, accumulate `samples_per_pixel` jittered
/// ray colours, average, gamma-correct and quantize.
pub fn render_row(cam: &Camera, world: &HittableList, j: usize) -> (row: Vec<(i32, i32, i32)>)
    requires
        s_cam_ready(*cam),
        s_scene_wf(world.objects@),
        j < s_cam_height(*cam),
    ensures
        s_row_ok(row@, cam.image_width as int),
        s_rendered_row(*cam, world.objects@, j as int, row@),
{
    let width = cam.image_width;
    let samples = cam.samples_per_pixel;
    let mut row: Vec<(i32, i32, i32)> = Vec::new();
    let mut i: usize = 0;
    while i < width
        invariant
            s_cam_ready(*cam),
            s_scene_wf(world.objects@),
            j < s_cam_height(*cam),
            width == cam.image_width,
            samples == cam.samples_per_pixel,
            i <= width,
            row@.len() == i,
            forall|k: int| 0 <= k < row@.len() ==> s_rgb_ok(#[trigger] row@[k]),
            forall|k: int|
                0 <= k < row@.len() ==> s_pixel_ok(
                    *cam,
                    world.objects@,
                    k,
                    j as int,
                    #[trigger] row@[k],
                ),
        decreases width - i,
    {
        let mut pixel_color = Color::new(0, 0, 0);
        let ghost mut drawn: Seq<V3> = Seq::empty();
        let mut s: usize = 0;
        while s < samples
            invariant
                s_cam_ready(*cam),
                s_scene_wf(world.objects@),
                j < s_cam_height(*cam),
                i < cam.image_width,
                samples == cam.samples_per_pixel,
                s <= samples,
                0 <= pixel_color@.x <= s * SCALE,
                0 <= pixel_color@.y <= s * SCALE,
                0 <= pixel_color@.z <= s * SCALE,
                drawn.len() == s,
                pixel_color@ == s_sum_colors(drawn),
                forall|k: int|
                    0 <= k < drawn.len() ==> s_sample_ok(
                        *cam,
                        world.objects@,
                        i as int,
                        j as int,
                        #[trigger] drawn[k],
                    ),
            decreases samples - s,
        {
            let ray = cam.get_ray(i, j);
            let sample = Camera::ray_color(&ray, world, cam.max_depth);
            pixel_color.add_assign(&sample);
            proof {
                assert(s_sample_ok(*cam, world.objects@, i as int, j as int, sample@));
                let prev = drawn;
                drawn = drawn.push(sample@);
                assert(drawn.drop_last() =~= prev);
            }
            s = s + 1;
        }
        let averaged = pixel_color.mul(cam.pixel_sample_scale);
        proof {
            lemma_fmul_range(
                cam.pixel_sample_scale as int,
                pixel_color@.x,
                SCALE as int,
                0x400_0000,
                0x400_0000,
            );
            lemma_fmul_range(
                cam.pixel_sample_scale as int,
                pixel_color@.y,
                SCALE as int,
                0x400_0000,
                0x400_0000,
            );
            lemma_fmul_range(
                cam.pixel_sample_scale as int,
                pixel_color@.z,
                SCALE as int,
                0x400_0000,
                0x400_0000,
            );
        }
        let rgb = averaged.to_rgb_i32(true);
        proof {
            assert(s_pixel_ok(*cam, world.objects@, i as int, j as int, rgb));
        }
        row.push(rgb);
        i = i + 1;
    }
    row
}

/// Relies on rayon's indexed parallel iterator over `0..height`: mapping
/// `render_row` and collecting into a `Vec` yields exactly one row per
/// index, in index order, each produced by the verified `render_row` for
/// that index — so each row satisfies `render_row`'s postcondition for its
/// own scanline. Rows share only read-only state.
#[verifier::external_body]
fn par_render_rows(cam: &Camera, world: &HittableList, height: usize) -> (rows: Vec<
    Vec<(i32, i32, i32)>,
>)
    requires
        s_cam_ready(*cam),
        s_scene_wf(world.objects@),
        height == s_cam_height(*cam),
    ensures
        rows@.len() == height,
        forall|j: int|
            0 <= j < rows@.len() ==> s_rendered_row(
                *cam,
                world.objects@,
                j,
                #[trigger] rows@[j]@,
            ),
{
    (0..height).into_par_iter().map(|j| render_row(cam, world, j)).collect()
}

impl Camera {
    /// Render the scene sequentially, strict row-major order: every pixel is
    /// fully resolved before the next, and rows are produced top to bottom.
    pub fn render(&mut self, world: &HittableList) -> (res: Result<Image, CameraError>)
        requires
            s_cam_config_ok(*old(self)),
            s_scene_wf(world.objects@),
        ensures
            s_cam_config_ok(*final(self)),
            final(self).aspect_ratio == old(self).aspect_ratio,
            final(self).image_width == old(self).image_width,
            final(self).samples_per_pixel == old(self).samples_per_pixel,
            final(self).max_depth == old(self).max_depth,
            final(self).tan_half_vfov == old(self).tan_half_vfov,
            final(self).lookfrom == old(self).lookfrom,
            final(self).lookat == old(self).lookat,
            final(self).vup == old(self).vup,
            final(self).defocus_tan_half == old(self).defocus_tan_half,
            final(self).focus_dist == old(self).focus_dist,
            res is Err <==> s_cam_validate(*old(self)) is Some,
            res matches Err(e) ==> Some(e) == s_cam_validate(*old(self)),
            res matches Ok(img) ==> {
                &&& img.width == old(self).image_width
                &&& img.height == s_image_height(
                    old(self).image_width as int,
                    old(self).aspect_ratio as int,
                )
                &&& img.pixels@.len() == img.width * img.height
                &&& forall|k: int| 0 <= k < img.pixels@.len() ==> s_rgb_ok(#[trigger] img.pixels@[k])
                &&& forall|jj: int, ii: int|
                    0 <= jj < img.height && 0 <= ii < img.width ==> s_pixel_ok(
                        *final(self),
                        world.objects@,
                        ii,
                        jj,
                        #[trigger] img.pixels@[jj * img.width + ii],
                    )
            },
    {
        match self.initialize() {
            Err(e) => {
                return Err(e);
            },
            Ok(_) => {},
        }
        let width = self.image_width;
        let height = self.image_height;
        proof {
            assert(height == s_cam_height(*self));
        }
        let mut pixels: Vec<(i32, i32, i32)> = Vec::new();
        let mut j: usize = 0;
        while j < height
            invariant
                s_cam_ready(*self),
                s_scene_wf(world.objects@),
                width == self.image_width,
                height == s_cam_height(*self),
                j <= height,
                pixels@.len() == j * width,
                forall|k: int| 0 <= k < pixels@.len() ==> s_rgb_ok(#[trigger] pixels@[k]),
                forall|jj: int, ii: int|
                    0 <= jj < j && 0 <= ii < width ==> s_pixel_ok(
                        *self,
                        world.objects@,
                        ii,
                        jj,
                        #[trigger] pixels@[jj * width + ii],
                    ),
            decreases height - j,
        {
            let mut row = render_row(self, world, j);
            let ghost row_snap = row@;
            let ghost before = pixels@;
            proof {
                assert((j + 1) * width == j * width + width) by (nonlinear_arith);
            }
            pixels.append(&mut row);
            proof {
                assert forall|jj: int, ii: int|
                    0 <= jj < j + 1 && 0 <= ii < width implies s_pixel_ok(
                    *self,
                    world.objects@,
                    ii,
                    jj,
                    #[trigger] pixels@[jj * width + ii],
                ) by {
                    if jj < j {
                        assert(0 <= jj * width + ii && jj * width + ii < j * width)
                            by (nonlinear_arith)
                            requires
                                0 <= jj < j,
                                0 <= ii < width,
                        ;
                        assert(pixels@[jj * width + ii] == before[jj * width + ii]);
                    } else {
                        assert(pixels@[j * width + ii] == row_snap[ii]);
                    }
                }
            }
            j = j + 1;
        }
        proof {
            assert(height * width == width * height) by (nonlinear_arith);
        }
        Ok(Image { width, height, pixels })
    }

    /// Render the scene with one parallel task per scanline; the rows are
    /// joined strictly in row order, so the output layout is identical to
    /// the sequential path's.
    pub fn render_multithreaded(&mut self, world: &HittableList) -> (res: Result<
        Image,
        CameraError,
    >)
        requires
            s_cam_config_ok(*old(self)),
            s_scene_wf(world.objects@),
        ensures
            s_cam_config_ok(*final(self)),
            final(self).aspect_ratio == old(self).aspect_ratio,
            final(self).image_width == old(self).image_width,
            final(self).samples_per_pixel == old(self).samples_per_pixel,
            final(self).max_depth == old(self).max_depth,
            final(self).tan_half_vfov == old(self).tan_half_vfov,
            final(self).lookfrom == old(self).lookfrom,
            final(self).lookat == old(self).lookat,
            final(self).vup == old(self).vup,
            final(self).defocus_tan_half == old(self).defocus_tan_half,
            final(self).focus_dist == old(self).focus_dist,
            res is Err <==> s_cam_validate(*old(self)) is Some,
            res matches Err(e) ==> Some(e) == s_cam_validate(*old(self)),
            res matches Ok(img) ==> {
                &&& img.width == old(self).image_width
                &&& img.height == s_image_height(
                    old(self).image_width as int,
                    old(self).aspect_ratio as int,
                )
                &&& img.pixels@.len() == img.width * img.height
                &&& forall|k: int| 0 <= k < img.pixels@.len() ==> s_rgb_ok(#[trigger] img.pixels@[k])
                &&& forall|jj: int, ii: int|
                    0 <= jj < img.height && 0 <= ii < img.width ==> s_pixel_ok(
                        *final(self),
                        world.objects@,
                        ii,
                        jj,
                        #[trigger] img.pixels@[jj * img.width + ii],
                    )
            },
    {
        match self.initialize() {
            Err(e) => {
                return Err(e);
            },
            Ok(_) => {},
        }
        let width = self.image_width;
        let height = self.image_height;
        let mut rows = par_render_rows(self, world, height);
        let mut pixels: Vec<(i32, i32, i32)> = Vec::new();
        let mut j: usize = 0;
        while j < height
            invariant
                rows@.len() == height,
                width == self.image_width,
                forall|jj: int|
                    0 <= jj < rows@.len() ==> s_rendered_row(
                        *self,
                        world.objects@,
                        jj,
                        #[trigger] rows@[jj]@,
                    ),
                j <= height,
                pixels@.len() == j * width,
                forall|k: int| 0 <= k < pixels@.len() ==> s_rgb_ok(#[trigger] pixels@[k]),
                forall|jj: int, ii: int|
                    0 <= jj < j && 0 <= ii < width ==> s_pixel_ok(
                        *self,
                        world.objects@,
                        ii,
                        jj,
                        #[trigger] pixels@[jj * width + ii],
                    ),
            decreases height - j,
        {
            let row = &rows[j];
            let mut i: usize = 0;
            proof {
                assert((j + 1) * width == j * width + width) by (nonlinear_arith);
            }
            while i < row.len()
                invariant
                    s_rendered_row(*self, world.objects@, j as int, row@),
                    width == self.image_width,
                    i <= row@.len(),
                    pixels@.len() == j * width + i,
                    forall|k: int| 0 <= k < pixels@.len() ==> s_rgb_ok(#[trigger] pixels@[k]),
                    forall|jj: int, ii: int|
                        0 <= jj < j && 0 <= ii < width ==> s_pixel_ok(
                            *self,
                            world.objects@,
                            ii,
                            jj,
                            #[trigger] pixels@[jj * width + ii],
                        ),
                    forall|ii: int|
                        0 <= ii < i ==> s_pixel_ok(
                            *self,
                            world.objects@,
                            ii,
                            j as int,
                            #[trigger] pixels@[j * width + ii],
                        ),
                decreases row@.len() - i,
            {
                let ghost before = pixels@;
                pixels.push(row[i]);
                proof {
                    assert forall|jj: int, ii: int|
                        0 <= jj < j && 0 <= ii < width implies s_pixel_ok(
                        *self,
                        world.objects@,
                        ii,
                        jj,
                        #[trigger] pixels@[jj * width + ii],
                    ) by {
                        assert(0 <= jj * width + ii && jj * width + ii < j * width)
                            by (nonlinear_arith)
                            requires
                                0 <= jj < j,
                                0 <= ii < width,
                        ;
                        assert(pixels@[jj * width + ii] == before[jj * width + ii]);
                    }
                }
                i = i + 1;
            }
            j = j + 1;
        }
        proof {
            assert(height * width == width * height) by (nonlinear_arith);
        }
        Ok(Image { width, height, pixels })
    }
}

} // verus!
