//! The camera: derives viewport geometry from the configuration, generates
//! jittered and lens-sampled rays, and drives the recursive shading
//! integrator and the render loop.
//!
//! The two angles of the configuration enter as tangents of their half
//! angles, already in fixed point: evaluating a tangent is trigonometry and
//! stays with the caller, outside this kernel.

use crate::color::{dec_digits, lines_of, push_decimal, write_color, Color};
use crate::fixed::{div_floor_nonneg, fx_add, fx_div, fx_mul, fx_sub, ONE};
use crate::interval::Interval;
use crate::material::scatter_spec;
use crate::ray::{Point3, Ray};
use crate::rtweekend::{random_double, Sampler, INF};
use crate::sphere::{
    list_materials_wf, misses_all, scan_hit, Hit, HitRecord, HittableList, HittableObject, New,
};
use crate::vec3::{
    disk_sample_of, random_in_unit_disk, sv_add, sv_cross, sv_divs, sv_ewmul, sv_len_sq,
    sv_near_zero, sv_neg, sv_scale, sv_sub, sv_unit, sv_zero, unit_vector_of, Cross, Unit, Vec3,
};
use vstd::prelude::*;

verus! {

/// One half in fixed point.
pub const HALF: i64 = 32768;

/// The sky gradient's horizon green channel, `0.7` in fixed point.
pub const SKY_G: i64 = 45875;

/// The lower end of the hit window: a small bias (one thousandth in fixed
/// point) that excludes self-intersection at a bounce's own origin.
pub const SHADOW_BIAS: i64 = 65;

pub struct Camera {
    // configuration
    pub aspect_ratio: i64,
    pub image_width: u32,
    pub samples_per_pixel: u32,
    pub max_depth: u32,
    /// Tangent of half the vertical field of view, in fixed point.
    pub vfov_tan_half: i64,
    pub lookfrom: Point3,
    pub lookat: Point3,
    pub vup: Vec3,
    /// Tangent of half the defocus cone angle; non-positive disables the lens.
    pub defocus_tan_half: i64,
    pub focus_dist: i64,
    // derived state, set by `initialize`
    pub pixel_samples_scale: i64,
    pub image_height: u32,
    pub center: Point3,
    pub pixel00_loc: Point3,
    pub pixel_delta_u: Vec3,
    pub pixel_delta_v: Vec3,
    pub u: Vec3,
    pub v: Vec3,
    pub w: Vec3,
    pub defocus_disk_u: Vec3,
    pub defocus_disk_v: Vec3,
}

/// Types whose derived state must be computed before use.
pub trait Initialize: Sized {
    spec fn init_req(&self) -> bool;

    spec fn init_post(prev: Self, cur: Self) -> bool;

    fn initialize(&mut self)
        requires
            old(self).init_req(),
        ensures
            Self::init_post(*old(self), *final(self)),
    ;
}

/// Types that render a scene into the bytes of an image stream.
pub trait Render: Sized {
    spec fn render_req(&self, world: &HittableList, smp: &Sampler) -> bool;

    spec fn render_post(prev: Self, cur: Self, world: &HittableList, out: Seq<u8>) -> bool;

    fn render(&mut self, world: &HittableList, smp: &Sampler) -> (out: Vec<u8>)
        requires
            old(self).render_req(world, smp),
        ensures
            Self::render_post(*old(self), *final(self), world, out@),
    ;
}

// --- the derived state, one spec function per field ---
/// Image height: width over aspect ratio, floored, capped to a signed
/// 32-bit count, and at least one.
pub open spec fn spec_image_height(c: Camera) -> int
    recommends
        c.aspect_ratio > 0,
{
    let h0 = (c.image_width as int * (ONE as int)) / (c.aspect_ratio as int);
    let h1 = if h0 > 0x7FFFFFFF {
        0x7FFFFFFF as int
    } else {
        h0
    };
    if h1 < 1 {
        1
    } else {
        h1
    }
}

/// The per-sample averaging factor `1 / samples_per_pixel`.
pub open spec fn spec_pixel_samples_scale(c: Camera) -> int
    recommends
        c.samples_per_pixel >= 1,
{
    crate::fixed::sat_div(ONE as int, c.samples_per_pixel as int * (ONE as int))
}

pub open spec fn spec_w(c: Camera) -> Vec3 {
    sv_unit(sv_sub(c.lookfrom, c.lookat))
}

pub open spec fn spec_u(c: Camera) -> Vec3 {
    sv_unit(sv_cross(c.vup, spec_w(c)))
}

pub open spec fn spec_v(c: Camera) -> Vec3 {
    sv_cross(spec_w(c), spec_u(c))
}

/// Viewport height `2 * tan(vfov/2) * focus_dist`.
pub open spec fn spec_viewport_height(c: Camera) -> int {
    crate::fixed::sat_mul(
        crate::fixed::sat_mul(2 * (ONE as int), c.vfov_tan_half as int),
        c.focus_dist as int,
    )
}

/// Viewport width: the pixel aspect `width / height` times the height.
pub open spec fn spec_viewport_width(c: Camera) -> int {
    let ratio = (c.image_width as int * (ONE as int)) / spec_image_height(c);
    crate::fixed::sat_mul(ratio, spec_viewport_height(c))
}

pub open spec fn spec_pixel_delta_u(c: Camera) -> Vec3 {
    sv_divs(sv_scale(spec_u(c), spec_viewport_width(c)), c.image_width as int * (ONE as int))
}

pub open spec fn spec_pixel_delta_v(c: Camera) -> Vec3 {
    sv_divs(
        sv_scale(sv_neg(spec_v(c)), spec_viewport_height(c)),
        spec_image_height(c) * (ONE as int),
    )
}

/// World location of the center of pixel (0,0).
pub open spec fn spec_pixel00_loc(c: Camera) -> Point3 {
    let viewport_u = sv_scale(spec_u(c), spec_viewport_width(c));
    let viewport_v = sv_scale(sv_neg(spec_v(c)), spec_viewport_height(c));
    let upper_left = sv_sub(
        sv_sub(
            sv_sub(c.lookfrom, sv_scale(spec_w(c), c.focus_dist as int)),
            sv_divs(viewport_u, 2 * (ONE as int)),
        ),
        sv_divs(viewport_v, 2 * (ONE as int)),
    );
    sv_add(
        sv_add(upper_left, sv_scale(spec_pixel_delta_u(c), HALF as int)),
        sv_scale(spec_pixel_delta_v(c), HALF as int),
    )
}

/// The defocus disk radius `focus_dist * tan(defocus_angle/2)`.
pub open spec fn spec_defocus_radius(c: Camera) -> int {
    crate::fixed::sat_mul(c.focus_dist as int, c.defocus_tan_half as int)
}

pub open spec fn spec_defocus_disk_u(c: Camera) -> Vec3 {
    sv_scale(spec_u(c), spec_defocus_radius(c))
}

pub open spec fn spec_defocus_disk_v(c: Camera) -> Vec3 {
    sv_scale(spec_v(c), spec_defocus_radius(c))
}

/// What a usable configuration must satisfy: positive sizes, a view
/// direction, and an up vector that is not parallel to it.
pub open spec fn camera_config_wf(c: Camera) -> bool {
    &&& c.aspect_ratio > 0
    &&& c.image_width >= 1
    &&& c.samples_per_pixel >= 1
    &&& sv_len_sq(sv_sub(c.lookfrom, c.lookat)) > 0
    &&& sv_len_sq(sv_cross(c.vup, spec_w(c))) > 0
}

/// The configuration fields of the two cameras agree.
pub open spec fn same_config(a: Camera, b: Camera) -> bool {
    &&& a.aspect_ratio == b.aspect_ratio
    &&& a.image_width == b.image_width
    &&& a.samples_per_pixel == b.samples_per_pixel
    &&& a.max_depth == b.max_depth
    &&& a.vfov_tan_half == b.vfov_tan_half
    &&& a.lookfrom == b.lookfrom
    &&& a.lookat == b.lookat
    &&& a.vup == b.vup
    &&& a.defocus_tan_half == b.defocus_tan_half
    &&& a.focus_dist == b.focus_dist
}

/// Every derived field holds the value its spec function gives.
pub open spec fn camera_initialized(c: Camera) -> bool {
    &&& camera_config_wf(c)
    &&& c.image_height as int == spec_image_height(c)
    &&& c.pixel_samples_scale as int == spec_pixel_samples_scale(c)
    &&& c.center == c.lookfrom
    &&& c.w == spec_w(c)
    &&& c.u == spec_u(c)
    &&& c.v == spec_v(c)
    &&& c.pixel_delta_u == spec_pixel_delta_u(c)
    &&& c.pixel_delta_v == spec_pixel_delta_v(c)
    &&& c.pixel00_loc == spec_pixel00_loc(c)
    &&& c.defocus_disk_u == spec_defocus_disk_u(c)
    &&& c.defocus_disk_v == spec_defocus_disk_v(c)
}

impl Initialize for Camera {
    open spec fn init_req(&self) -> bool {
        camera_config_wf(*self)
    }

    open spec fn init_post(prev: Camera, cur: Camera) -> bool {
        same_config(prev, cur) && camera_initialized(cur)
    }

    fn initialize(&mut self) {
        let num: i64 = (self.image_width as i64) * ONE;
        let h0: i64 = div_floor_nonneg(num, self.aspect_ratio);
        let h1: i64 = if h0 > 0x7FFFFFFF {
            0x7FFFFFFF
        } else {
            h0
        };
        self.image_height = if h1 < 1 {
            1u32
        } else {
            h1 as u32
        };

        self.pixel_samples_scale = fx_div(ONE, (self.samples_per_pixel as i64) * ONE);

        self.center = self.lookfrom;

        let viewport_height: i64 = fx_mul(fx_mul(2 * ONE, self.vfov_tan_half), self.focus_dist);
        let ratio: i64 = div_floor_nonneg(num, self.image_height as i64);
        let viewport_width: i64 = fx_mul(ratio, viewport_height);

        self.w = self.lookfrom.sub(self.lookat).unit();
        self.u = self.vup.cross(self.w).unit();
        self.v = self.w.cross(self.u);

        let viewport_u: Vec3 = self.u.mul(viewport_width);
        let viewport_v: Vec3 = self.v.neg().mul(viewport_height);

        self.pixel_delta_u = viewport_u.div((self.image_width as i64) * ONE);
        self.pixel_delta_v = viewport_v.div((self.image_height as i64) * ONE);

        let viewport_upper_left: Vec3 = self.center.sub(self.w.mul(self.focus_dist)).sub(
            viewport_u.div(2 * ONE),
        ).sub(viewport_v.div(2 * ONE));
        self.pixel00_loc = viewport_upper_left.add(self.pixel_delta_u.mul(HALF)).add(
            self.pixel_delta_v.mul(HALF),
        );

        let defocus_radius: i64 = fx_mul(self.focus_dist, self.defocus_tan_half);
        self.defocus_disk_u = self.u.mul(defocus_radius);
        self.defocus_disk_v = self.v.mul(defocus_radius);
    }
}

/// The hit window of every shading ray.
pub open spec fn shadow_interval() -> Interval {
    Interval { min: SHADOW_BIAS, max: INF }
}

/// The sky gradient: white blended toward sky blue by the normalized
/// vertical component of the ray direction.  The blend factor is clamped
/// into `[0, 1]`: in real arithmetic it already lies there, so the clamp
/// only guards against fixed-point normalization overshoot and keeps the
/// blend convex.
pub open spec fn spec_sky(r: Ray) -> Color
    recommends
        sv_len_sq(r.dir) > 0,
{
    let unit_direction = sv_unit(r.dir);
    let a = crate::interval::itv_clamp(
        Interval { min: 0, max: ONE },
        crate::fixed::sat_mul(
            HALF as int,
            crate::fixed::sat_add(unit_direction.y as int, ONE as int),
        ),
    );
    sv_add(
        sv_scale(Vec3 { x: ONE, y: ONE, z: ONE }, crate::fixed::sat_sub(ONE as int, a)),
        sv_scale(Vec3 { x: HALF, y: SKY_G, z: ONE }, a),
    )
}

/// The sky is a convex blend of white and sky blue: every channel lies in
/// `[0, 1]`, and the vertical channel -- one at both gradient ends -- is
/// exactly one.
pub proof fn lemma_sky_range(r: Ray)
    requires
        sv_len_sq(r.dir) > 0,
    ensures
        0 <= spec_sky(r).x as int <= ONE as int,
        0 <= spec_sky(r).y as int <= ONE as int,
        spec_sky(r).z == ONE,
{
    let s = ONE as int;
    let ud = sv_unit(r.dir);
    let a = crate::interval::itv_clamp(
        Interval { min: 0, max: ONE },
        crate::fixed::sat_mul(HALF as int, crate::fixed::sat_add(ud.y as int, s)),
    );
    assert(0 <= a <= s);
    let w1 = crate::fixed::sat_sub(s, a);
    assert(w1 == s - a);
    crate::fixed::lemma_sat_mul_one(w1);
    crate::fixed::lemma_sat_mul_one(a);
    crate::fixed::lemma_sat_mul_unit(HALF as int, a);
    crate::fixed::lemma_sat_mul_unit(SKY_G as int, a);
}

/// The ray aimed at pixel `(i, j)`, displaced inside the pixel by the jitter
/// `offset` and starting from the lens point the unit-disk sample `p` picks
/// (or from the camera center with the lens disabled).
pub open spec fn spec_ray_for(c: Camera, i: int, j: int, offset: Vec3, p: Vec3) -> Ray {
    let pixel_sample = sv_add(
        sv_add(
            c.pixel00_loc,
            sv_scale(c.pixel_delta_u, crate::fixed::sat_add(i * (ONE as int), offset.x as int)),
        ),
        sv_scale(c.pixel_delta_v, crate::fixed::sat_add(j * (ONE as int), offset.y as int)),
    );
    let ray_origin = if c.defocus_tan_half <= 0 {
        c.center
    } else {
        sv_add(
            sv_add(c.center, sv_scale(c.defocus_disk_u, p.x as int)),
            sv_scale(c.defocus_disk_v, p.y as int),
        )
    };
    Ray { orig: ray_origin, dir: sv_sub(pixel_sample, ray_origin) }
}

/// What `ray_color` may return: out of bounces it is black; past every
/// object it is the sky (or black for a ray with no direction); at the
/// closest hit some unit draw decides the scattering, and the result is the
/// attenuation times a color that itself satisfies this relation one bounce
/// deeper, or black on absorption.
pub open spec fn ray_color_rel(r: Ray, depth: int, objs: Seq<HittableObject>, res: Color) -> bool
    decreases depth,
{
    if depth <= 0 {
        res == sv_zero()
    } else {
        match scan_hit(objs, r, shadow_interval(), objs.len() as int) {
            Some(rec) => exists|ruv: Vec3, draw: int|
                #![trigger scatter_spec(rec.mat, r, rec, ruv, draw)]
                {
                    &&& !sv_near_zero(ruv)
                    &&& 0 <= draw < ONE as int
                    &&& match scatter_spec(rec.mat, r, rec, ruv, draw) {
                        Some(ar) => exists|sub: Color|
                            #![trigger sv_ewmul(ar.0, sub)]
                            ray_color_rel(ar.1, depth - 1, objs, sub) && res == sv_ewmul(
                                ar.0,
                                sub,
                            ),
                        None => res == sv_zero(),
                    }
                },
            None => res == (if sv_len_sq(r.dir) == 0 {
                sv_zero()
            } else {
                spec_sky(r)
            }),
        }
    }
}

/// The color `ray_color` returns under a constant sampler: every draw is the
/// constant, so the whole bounce chain is a function of ray, scene and draw.
pub open spec fn ray_color_spec(r: Ray, depth: int, objs: Seq<HittableObject>, v: int) -> Color
    decreases depth,
{
    if depth <= 0 {
        sv_zero()
    } else {
        match scan_hit(objs, r, shadow_interval(), objs.len() as int) {
            Some(rec) => match scatter_spec(rec.mat, r, rec, unit_vector_of(v), v) {
                Some(ar) => sv_ewmul(ar.0, ray_color_spec(ar.1, depth - 1, objs, v)),
                None => sv_zero(),
            },
            None => if sv_len_sq(r.dir) == 0 {
                sv_zero()
            } else {
                spec_sky(r)
            },
        }
    }
}

/// The jitter offset a constant draw yields.
pub open spec fn offset_of(v: int) -> Vec3 {
    Vec3 {
        x: crate::fixed::sat_sub(v, HALF as int) as i64,
        y: crate::fixed::sat_sub(v, HALF as int) as i64,
        z: 0,
    }
}

/// A jitter offset stays inside the pixel: both axes in `[-1/2, 1/2)`.
pub open spec fn offset_in_pixel(off: Vec3) -> bool {
    &&& -(HALF as int) <= off.x as int && (off.x as int) < HALF as int
    &&& -(HALF as int) <= off.y as int && (off.y as int) < HALF as int
    &&& off.z == 0
}

/// One sample of a pixel: some in-pixel jitter offset and some unit-disk
/// lens point give the ray, whose color satisfies the bounce relation at the
/// full bounce budget.
pub open spec fn sample_rel(c: Camera, i: int, j: int, objs: Seq<HittableObject>, col: Color) -> bool {
    exists|off: Vec3, p: Vec3|
        #![trigger spec_ray_for(c, i, j, off, p)]
        {
            &&& offset_in_pixel(off)
            &&& sv_len_sq(p) < ONE as int
            &&& p.z == 0
            &&& ray_color_rel(spec_ray_for(c, i, j, off, p), c.max_depth as int, objs, col)
        }
}

/// The running sum of the first `n` samples of a pixel.
pub open spec fn samples_sum_rel(
    c: Camera,
    i: int,
    j: int,
    objs: Seq<HittableObject>,
    n: int,
    acc: Color,
) -> bool
    decreases n,
{
    if n <= 0 {
        acc == sv_zero()
    } else {
        exists|prev: Color, s: Color|
            #![trigger sv_add(prev, s)]
            {
                &&& samples_sum_rel(c, i, j, objs, n - 1, prev)
                &&& sample_rel(c, i, j, objs, s)
                &&& acc == sv_add(prev, s)
            }
    }
}

/// The finished value of a pixel: the per-sample averaging factor times the
/// sum of `samples_per_pixel` sample colors.
pub open spec fn pixel_rel(c: Camera, i: int, j: int, objs: Seq<HittableObject>, col: Color) -> bool {
    exists|acc: Color|
        #![auto]
        samples_sum_rel(c, i, j, objs, c.samples_per_pixel as int, acc) && col == sv_scale(
            acc,
            c.pixel_samples_scale as int,
        )
}

/// `n` copies of one color, summed.
pub open spec fn repeat_sum(col: Color, n: int) -> Color
    decreases n,
{
    if n <= 0 {
        sv_zero()
    } else {
        sv_add(repeat_sum(col, n - 1), col)
    }
}

/// The value of pixel `(i, j)` under a constant sampler: every sample is the
/// same ray and the same color.
pub open spec fn pixel_spec(c: Camera, i: int, j: int, objs: Seq<HittableObject>, v: int) -> Color {
    let sample = ray_color_spec(
        spec_ray_for(c, i, j, offset_of(v), disk_sample_of(v)),
        c.max_depth as int,
        objs,
        v,
    );
    sv_scale(repeat_sum(sample, c.samples_per_pixel as int), c.pixel_samples_scale as int)
}

/// The first `n` pixel colors of scanline `j` under a constant sampler.
pub open spec fn row_colors_spec(
    c: Camera,
    j: int,
    objs: Seq<HittableObject>,
    v: int,
    n: int,
) -> Seq<Color>
    decreases n,
{
    if n <= 0 {
        Seq::empty()
    } else {
        row_colors_spec(c, j, objs, v, n - 1).push(pixel_spec(c, n - 1, j, objs, v))
    }
}

/// The concatenated pixel lines of a sequence of scanlines.
pub open spec fn rows_bytes(rows: Seq<Seq<Color>>) -> Seq<u8>
    decreases rows.len(),
{
    if rows.len() == 0 {
        Seq::empty()
    } else {
        rows_bytes(rows.drop_last()) + lines_of(rows.last())
    }
}

/// The first `h` scanlines of the image body under a constant sampler.
pub open spec fn render_rows_spec(
    c: Camera,
    objs: Seq<HittableObject>,
    v: int,
    h: int,
) -> Seq<u8>
    decreases h,
{
    if h <= 0 {
        Seq::empty()
    } else {
        render_rows_spec(c, objs, v, h - 1) + lines_of(
            row_colors_spec(c, h - 1, objs, v, c.image_width as int),
        )
    }
}

/// A jitter offset uniform in `[-1/2, 1/2)` on both axes.
fn sample_square(smp: &Sampler) -> (r: Vec3)
    requires
        smp.wf(),
    ensures
        offset_in_pixel(r),
        exists|dx: int, dy: int|
            #![auto]
            0 <= dx < ONE as int && 0 <= dy < ONE as int && r == (Vec3 {
                x: crate::fixed::sat_sub(dx, HALF as int) as i64,
                y: crate::fixed::sat_sub(dy, HALF as int) as i64,
                z: 0,
            }),
        smp.as_constant() matches Some(v) ==> r == offset_of(v as int),
{
    let dx: i64 = random_double(smp);
    let dy: i64 = random_double(smp);
    let r = Vec3 { x: fx_sub(dx, HALF), y: fx_sub(dy, HALF), z: 0 };
    proof {
        assert(0 <= (dx as int) < ONE as int && 0 <= (dy as int) < ONE as int && r == (Vec3 {
            x: crate::fixed::sat_sub(dx as int, HALF as int) as i64,
            y: crate::fixed::sat_sub(dy as int, HALF as int) as i64,
            z: 0,
        }));
    }
    r
}

impl Camera {
    /// The deterministic core of ray generation: the caller supplies the
    /// jitter offset and the unit-disk lens sample.
    pub fn ray_for(&self, i: u32, j: u32, offset: Vec3, p: Vec3) -> (r: Ray)
        ensures
            r == spec_ray_for(*self, i as int, j as int, offset, p),
    {
        let i_fp: i64 = (i as i64) * ONE;
        let j_fp: i64 = (j as i64) * ONE;
        let pixel_sample: Vec3 = self.pixel00_loc.add(
            self.pixel_delta_u.mul(fx_add(i_fp, offset.x)),
        ).add(self.pixel_delta_v.mul(fx_add(j_fp, offset.y)));
        let ray_origin: Point3 = if self.defocus_tan_half <= 0 {
            self.center
        } else {
            self.center.add(self.defocus_disk_u.mul(p.x)).add(self.defocus_disk_v.mul(p.y))
        };
        Ray { orig: ray_origin, dir: pixel_sample.sub(ray_origin) }
    }

    /// A camera ray for pixel `(i, j)`: some jitter offset and some lens
    /// sample decide it.
    pub fn get_ray(&self, i: u32, j: u32, smp: &Sampler) -> (r: Ray)
        requires
            smp.wf(),
        ensures
            exists|offset: Vec3, p: Vec3|
                #![auto]
                offset_in_pixel(offset) && sv_len_sq(p) < ONE as int && p.z == 0 && r
                    == spec_ray_for(*self, i as int, j as int, offset, p),
            smp.as_constant() matches Some(v) ==> r == spec_ray_for(
                *self,
                i as int,
                j as int,
                offset_of(v as int),
                disk_sample_of(v as int),
            ),
    {
        let offset: Vec3 = sample_square(smp);
        let p: Vec3 = self.defocus_disk_sample_point(smp);
        let r = self.ray_for(i, j, offset, p);
        proof {
            assert(offset_in_pixel(offset) && sv_len_sq(p) < ONE as int && p.z == 0 && r
                == spec_ray_for(*self, i as int, j as int, offset, p));
        }
        r
    }

    /// The unit-disk sample that positions a lens ray's origin.
    fn defocus_disk_sample_point(&self, smp: &Sampler) -> (p: Vec3)
        requires
            smp.wf(),
        ensures
            sv_len_sq(p) < ONE as int,
            p.z == 0,
            smp.as_constant() matches Some(v) ==> p == disk_sample_of(v as int),
    {
        random_in_unit_disk(smp)
    }

    /// The recursive integrator.  Out of bounces it is black; past every
    /// object it is the sky; at a hit it is the scattered bounce tinted by
    /// the material's attenuation, or black on absorption; under a constant
    /// sampler it is the exact color the constant determines.
    pub fn ray_color(&self, r: Ray, depth: u32, world: &HittableList, smp: &Sampler) -> (res: Color)
        requires
            list_materials_wf(world@),
            smp.wf(),
        ensures
            ray_color_rel(r, depth as int, world@, res),
            depth == 0 ==> res == sv_zero(),
            depth > 0 && sv_len_sq(r.dir) == 0 ==> res == sv_zero(),
            depth > 0 && sv_len_sq(r.dir) > 0 && misses_all(world@, r, shadow_interval())
                ==> res == spec_sky(r),
            smp.as_constant() matches Some(v) ==> res == ray_color_spec(
                r,
                depth as int,
                world@,
                v as int,
            ),
            crate::sphere::list_albedos_unit(world@) ==> 0 <= res.x <= ONE && 0 <= res.y <= ONE
                && 0 <= res.z <= ONE,
        decreases depth,
    {
        if depth == 0 {
            return Vec3 { x: 0, y: 0, z: 0 };
        }
        let window: Interval = Interval { min: SHADOW_BIAS, max: INF };
        let rec_opt: Option<HitRecord> = world.hit(r, window);
        proof {
            assert(window == shadow_interval());
        }
        match rec_opt {
            Some(rec) => {
                proof {
                    let i = choose|i: int|
                        0 <= i < world@.len() && (#[trigger] crate::sphere::obj_hit(
                            world@[i],
                            r,
                            window,
                        )) == Some(rec) && crate::sphere::all_farther_upto(
                            world@,
                            r,
                            window,
                            i,
                            rec.t as int,
                        );
                    crate::sphere::lemma_obj_hit_props(world@[i], r, window);
                    assert(crate::material::material_wf(rec.mat));
                    if crate::sphere::list_albedos_unit(world@) {
                        assert(crate::material::material_albedo_unit(rec.mat));
                    }
                    assert(!misses_all(world@, r, shadow_interval()));
                }
                match rec.mat.scatter(&r, &rec, smp) {
                    Some((attenuation, scattered)) => {
                        let sub: Color = self.ray_color(scattered, depth - 1, world, smp);
                        let res = crate::vec3::element_wise_mul(attenuation, sub);
                        proof {
                            let (ruv, draw) = choose|ruv: Vec3, draw: int|
                                #![auto]
                                !sv_near_zero(ruv) && 0 <= draw < ONE as int && Some(
                                    (attenuation, scattered),
                                ) == scatter_spec(rec.mat, r, rec, ruv, draw);
                            assert(res == sv_ewmul(attenuation, sub));
                            assert(ray_color_rel(scattered, depth as int - 1, world@, sub));
                            if crate::sphere::list_albedos_unit(world@) {
                                assert(crate::material::material_albedo_unit(rec.mat));
                                assert(0 <= attenuation.x <= ONE && 0 <= attenuation.y <= ONE && 0
                                    <= attenuation.z <= ONE);
                                crate::vec3::lemma_ewmul_attenuates(attenuation, sub);
                            }
                            assert(exists|sub2: Color|
                                #![trigger sv_ewmul(attenuation, sub2)]
                                ray_color_rel(scattered, depth as int - 1, world@, sub2) && res
                                    == sv_ewmul(attenuation, sub2));
                            assert(ray_color_rel(r, depth as int, world@, res));
                            if smp.as_constant() is Some {
                                let v = smp.as_constant()->0;
                                assert(Some((attenuation, scattered)) == scatter_spec(
                                    rec.mat,
                                    r,
                                    rec,
                                    unit_vector_of(v as int),
                                    v as int,
                                ));
                                assert(sub == ray_color_spec(
                                    scattered,
                                    depth as int - 1,
                                    world@,
                                    v as int,
                                ));
                                assert(res == ray_color_spec(r, depth as int, world@, v as int));
                            }
                        }
                        res
                    },
                    None => {
                        let res = Vec3 { x: 0, y: 0, z: 0 };
                        proof {
                            let (ruv, draw) = choose|ruv: Vec3, draw: int|
                                #![auto]
                                !sv_near_zero(ruv) && 0 <= draw < ONE as int && None::<
                                    (Color, Ray),
                                > == scatter_spec(rec.mat, r, rec, ruv, draw);
                            assert(res == sv_zero());
                            assert(ray_color_rel(r, depth as int, world@, res));
                            if smp.as_constant() is Some {
                                let v = smp.as_constant()->0;
                                assert(None::<(Color, Ray)> == scatter_spec(
                                    rec.mat,
                                    r,
                                    rec,
                                    unit_vector_of(v as int),
                                    v as int,
                                ));
                                assert(res == ray_color_spec(r, depth as int, world@, v as int));
                            }
                        }
                        res
                    },
                }
            },
            None => {
                let a: i64 = r.dir.length_squared();
                if a == 0 {
                    return Vec3 { x: 0, y: 0, z: 0 };
                }
                let unit_direction: Vec3 = r.dir.unit();
                let gradient: Interval = Interval { min: 0, max: ONE };
                let blend: i64 = gradient.clamp(fx_mul(HALF, fx_add(unit_direction.y, ONE)));
                let white: Vec3 = Vec3 { x: ONE, y: ONE, z: ONE };
                let sky_blue: Vec3 = Vec3 { x: HALF, y: SKY_G, z: ONE };
                let res = white.mul(fx_sub(ONE, blend)).add(sky_blue.mul(blend));
                proof {
                    assert(res == spec_sky(r));
                    assert(ray_color_rel(r, depth as int, world@, res));
                    lemma_sky_range(r);
                }
                res
            },
        }
    }

    /// One scanline of the output: the pixel lines of `image_width` averaged
    /// colors in left-to-right order, each the scaled sum of
    /// `samples_per_pixel` sample colors tied to its own camera ray; under a
    /// constant sampler, exactly the colors the constant determines.
    #[verifier::rlimit(100)]
    pub fn render_row(&self, j: u32, world: &HittableList, smp: &Sampler) -> (row: Vec<u8>)
        requires
            list_materials_wf(world@),
            smp.wf(),
        ensures
            exists|colors: Seq<Color>|
                #![auto]
                colors.len() == self.image_width as nat && row@ == lines_of(colors) && (forall|
                    ii: int,
                |
                    0 <= ii < colors.len() ==> #[trigger] pixel_rel(
                        *self,
                        ii,
                        j as int,
                        world@,
                        colors[ii],
                    )),
            smp.as_constant() matches Some(v) ==> row@ == lines_of(
                row_colors_spec(*self, j as int, world@, v as int, self.image_width as int),
            ),
    {
        let mut row: Vec<u8> = Vec::new();
        let ghost mut colors: Seq<Color> = Seq::empty();
        let mut i: u32 = 0;
        while i < self.image_width
            invariant
                i <= self.image_width,
                list_materials_wf(world@),
                smp.wf(),
                colors.len() == i as nat,
                row@ == lines_of(colors),
                forall|ii: int|
                    0 <= ii < colors.len() ==> #[trigger] pixel_rel(
                        *self,
                        ii,
                        j as int,
                        world@,
                        colors[ii],
                    ),
                smp.as_constant() matches Some(v) ==> colors == row_colors_spec(
                    *self,
                    j as int,
                    world@,
                    v as int,
                    i as int,
                ),
            decreases self.image_width - i,
        {
            let mut pixel_color: Vec3 = Vec3 { x: 0, y: 0, z: 0 };
            let mut s: u32 = 0;
            while s < self.samples_per_pixel
                invariant
                    list_materials_wf(world@),
                    smp.wf(),
                    s <= self.samples_per_pixel,
                    samples_sum_rel(*self, i as int, j as int, world@, s as int, pixel_color),
                    smp.as_constant() matches Some(v) ==> pixel_color == repeat_sum(
                        ray_color_spec(
                            spec_ray_for(
                                *self,
                                i as int,
                                j as int,
                                offset_of(v as int),
                                disk_sample_of(v as int),
                            ),
                            self.max_depth as int,
                            world@,
                            v as int,
                        ),
                        s as int,
                    ),
                decreases self.samples_per_pixel - s,
            {
                let ray: Ray = self.get_ray(i, j, smp);
                let sample_color: Color = self.ray_color(ray, self.max_depth, world, smp);
                let ghost prev_sum = pixel_color;
                pixel_color = pixel_color.add(sample_color);
                proof {
                    let (off, p) = choose|off: Vec3, p: Vec3|
                        #![auto]
                        offset_in_pixel(off) && sv_len_sq(p) < ONE as int && p.z == 0 && ray
                            == spec_ray_for(*self, i as int, j as int, off, p);
                    assert(ray_color_rel(
                        spec_ray_for(*self, i as int, j as int, off, p),
                        self.max_depth as int,
                        world@,
                        sample_color,
                    ));
                    assert(sample_rel(*self, i as int, j as int, world@, sample_color));
                    assert(pixel_color == sv_add(prev_sum, sample_color));
                    assert(samples_sum_rel(
                        *self,
                        i as int,
                        j as int,
                        world@,
                        s as int + 1,
                        pixel_color,
                    ));
                }
                s = s + 1;
            }
            let scaled: Color = pixel_color.mul(self.pixel_samples_scale);
            let mut line: Vec<u8> = write_color(scaled);
            row.append(&mut line);
            proof {
                assert(pixel_rel(*self, i as int, j as int, world@, scaled));
                let prev = colors;
                colors = colors.push(scaled);
                assert(colors.drop_last() =~= prev);
                assert(colors.last() == scaled);
                assert(row@ == lines_of(colors));
            }
            i = i + 1;
        }
        row
    }

}

impl Render for Camera {
    open spec fn render_req(&self, world: &HittableList, smp: &Sampler) -> bool {
        camera_config_wf(*self) && list_materials_wf(world@) && smp.wf()
    }

    /// The output stream is the header for the derived dimensions, then the
    /// pixel lines of `image_height` scanlines of `image_width` pixels each,
    /// top to bottom and left to right; every pixel value is the scaled sum
    /// of its own ray samples, and the camera keeps its configuration with
    /// the derived state freshly computed.  Under a constant sampler the
    /// whole stream is the exact image the constant determines.
    open spec fn render_post(prev: Camera, cur: Camera, world: &HittableList, out: Seq<u8>) -> bool {
        &&& same_config(prev, cur)
        &&& camera_initialized(cur)
        &&& exists|rows: Seq<Seq<Color>>|
            #![auto]
            {
                &&& rows.len() == cur.image_height as nat
                &&& (forall|jj: int|
                    0 <= jj < rows.len() ==> (#[trigger] rows[jj]).len()
                        == cur.image_width as nat)
                &&& (forall|jj: int, ii: int|
                    0 <= jj < rows.len() && 0 <= ii < cur.image_width as int ==> pixel_rel(
                        cur,
                        ii,
                        jj,
                        world@,
                        #[trigger] rows[jj][ii],
                    ))
                &&& out == ppm_header(cur.image_width as int, cur.image_height as int)
                    + rows_bytes(rows)
            }
    }

    #[verifier::rlimit(100)]
    fn render(&mut self, world: &HittableList, smp: &Sampler) -> (out: Vec<u8>)
        ensures
            smp.as_constant() matches Some(v) ==> out@ == ppm_header(
                final(self).image_width as int,
                final(self).image_height as int,
            ) + render_rows_spec(
                *final(self),
                world@,
                v as int,
                final(self).image_height as int,
            ),
    {
        self.initialize();
        let mut out: Vec<u8> = ppm_header_bytes(self.image_width, self.image_height);
        let ghost header = out@;
        let ghost mut rows: Seq<Seq<Color>> = Seq::empty();
        let mut j: u32 = 0;
        while j < self.image_height
            invariant
                j <= self.image_height,
                list_materials_wf(world@),
                smp.wf(),
                same_config(*old(self), *self),
                camera_initialized(*self),
                header == ppm_header(self.image_width as int, self.image_height as int),
                rows.len() == j as nat,
                forall|jj: int|
                    0 <= jj < rows.len() ==> (#[trigger] rows[jj]).len()
                        == self.image_width as nat,
                forall|jj: int, ii: int|
                    0 <= jj < rows.len() && 0 <= ii < self.image_width as int ==> pixel_rel(
                        *self,
                        ii,
                        jj,
                        world@,
                        #[trigger] rows[jj][ii],
                    ),
                out@ == header + rows_bytes(rows),
                smp.as_constant() matches Some(v) ==> out@ == header + render_rows_spec(
                    *self,
                    world@,
                    v as int,
                    j as int,
                ),
            decreases self.image_height - j,
        {
            let mut row: Vec<u8> = self.render_row(j, world, smp);
            let ghost rowseq = row@;
            out.append(&mut row);
            proof {
                let rowcolors = choose|rowcolors: Seq<Color>|
                    #![auto]
                    rowcolors.len() == self.image_width as nat && rowseq == lines_of(rowcolors)
                        && (forall|ii: int|
                        0 <= ii < rowcolors.len() ==> #[trigger] pixel_rel(
                            *self,
                            ii,
                            j as int,
                            world@,
                            rowcolors[ii],
                        ));
                let prev = rows;
                rows = rows.push(rowcolors);
                assert(rows.drop_last() =~= prev);
                assert(rows.last() == rowcolors);
                assert(out@ == header + rows_bytes(rows));
            }
            j = j + 1;
        }
        out
    }
}

/// The output header `P3`, the image dimensions, and the channel maximum,
/// each line ended by a newline.
pub open spec fn ppm_header(w: int, h: int) -> Seq<u8>
    recommends
        0 <= w,
        0 <= h,
{
    seq![80u8, 51u8, 10u8] + dec_digits(w as nat) + seq![32u8] + dec_digits(h as nat) + seq![
        10u8,
        50u8,
        53u8,
        53u8,
        10u8,
    ]
}

/// Encodes the header for the given image dimensions.
pub fn ppm_header_bytes(w: u32, h: u32) -> (v: Vec<u8>)
    ensures
        v@ == ppm_header(w as int, h as int),
{
    let mut out: Vec<u8> = Vec::new();
    out.push(80);
    out.push(51);
    out.push(10);
    push_decimal(&mut out, w as u64);
    out.push(32);
    push_decimal(&mut out, h as u64);
    out.push(10);
    out.push(50);
    out.push(53);
    out.push(53);
    out.push(10);
    proof {
        assert(out@ =~= ppm_header(w as int, h as int));
    }
    out
}

impl New for Camera {
    open spec fn new_post(r: Camera) -> bool {
        &&& r.aspect_ratio == ONE
        &&& r.image_width == 100u32
        &&& r.samples_per_pixel == 10u32
        &&& r.max_depth == 10u32
        &&& r.vfov_tan_half == ONE
        &&& r.lookfrom == sv_zero()
        &&& r.lookat == (Vec3 { x: 0, y: 0, z: (-ONE) as i64 })
        &&& r.vup == (Vec3 { x: 0, y: ONE, z: 0 })
        &&& r.defocus_tan_half == 0
        &&& r.focus_dist == 10 * ONE
    }

    /// The defaults of the reference camera: a square pinhole camera of 100
    /// pixels looking down the negative z axis with a 90 degree field of
    /// view (whose half angle has tangent one).
    fn new() -> Camera {
        Camera {
            aspect_ratio: ONE,
            image_width: 100,
            samples_per_pixel: 10,
            max_depth: 10,
            vfov_tan_half: ONE,
            lookfrom: Vec3 { x: 0, y: 0, z: 0 },
            lookat: Vec3 { x: 0, y: 0, z: -ONE },
            vup: Vec3 { x: 0, y: ONE, z: 0 },
            defocus_tan_half: 0,
            focus_dist: 10 * ONE,
            pixel_samples_scale: 0,
            image_height: 0,
            center: Vec3 { x: 0, y: 0, z: 0 },
            pixel00_loc: Vec3 { x: 0, y: 0, z: 0 },
            pixel_delta_u: Vec3 { x: 0, y: 0, z: 0 },
            pixel_delta_v: Vec3 { x: 0, y: 0, z: 0 },
            u: Vec3 { x: 0, y: 0, z: 0 },
            v: Vec3 { x: 0, y: 0, z: 0 },
            w: Vec3 { x: 0, y: 0, z: 0 },
            defocus_disk_u: Vec3 { x: 0, y: 0, z: 0 },
            defocus_disk_v: Vec3 { x: 0, y: 0, z: 0 },
        }
    }
}

} // verus!
