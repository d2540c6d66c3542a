//! The renderer: a persistent framebuffer driven one column at a time.
//!
//! The buffer is a leaky temporal integrator: every frame first decays each
//! cell, then writes wall and floor/ceiling pixels, each write subject to a
//! random dropout whose probability is the camera's noise scalar — except
//! glitch walls, which always render. Resolution changes migrate the buffer
//! by nearest-neighbor resampling instead of discarding it.

use vstd::pervasive::VecAdditionalExecFns;
use vstd::prelude::*;

use crate::camera::{Camera, Ray, camera_wf, cos_fx, cos_spec, perp_dist_spec, ray_spec, ray_wf,
    sin_fx, sin_spec};
use crate::fixed::{COLOR_MAX, SCALE, abs_int, div_fl, lemma_mul_abs_bound, rem_fl, vec2_ok};
use crate::scene::{Scene, best_hit_idx, scene_wf, seg_point_spec, seg_u_fx, segment_wf};
use crate::texture::{Color, color_wf, comp_ok, random_unit, sample_rel};

verus! {

/// Largest accepted framebuffer side, in pixels.
pub const MAX_DIM: usize = 16384;

/// One component scaled by a unit factor: `x * f / SCALE`.
pub open spec fn comp_scaled(x: int, f: int) -> int {
    (x * f) / (SCALE as int)
}

/// A color scaled componentwise by a factor in `[0, SCALE]`.
pub open spec fn scale_color_spec(c: Color, f: int) -> Color {
    Color {
        r: comp_scaled(c.r as int, f) as i64,
        g: comp_scaled(c.g as int, f) as i64,
        b: comp_scaled(c.b as int, f) as i64,
    }
}

/// One component of the display encoding: a square power curve, saturated.
/// The display curve deliberately uses the integer exponent two as the
/// fixed-point stand-in for the conventional exponent of about 2.2: it is
/// exact in this representation, where a fractional exponent would not be.
pub open spec fn comp_gamma(x: int) -> int {
    crate::texture::sat((x * x) / (SCALE as int))
}

/// The display encoding applied at the final pixel write.
pub open spec fn gamma_spec(c: Color) -> Color {
    Color {
        r: comp_gamma(c.r as int) as i64,
        g: comp_gamma(c.g as int) as i64,
        b: comp_gamma(c.b as int) as i64,
    }
}

/// The inverse-distance attenuation factor: `min(1, 2 / dist)`, saturating
/// at full brightness for anything at distance two or nearer.
pub open spec fn atten_factor(dist: int) -> int {
    if dist < 1 {
        SCALE as int
    } else {
        let f = (2 * SCALE * SCALE) / dist;
        if f > SCALE {
            SCALE as int
        } else {
            f
        }
    }
}

/// A color attenuated by fixed-point distance.
pub open spec fn attenuate_spec(c: Color, dist: int) -> Color {
    scale_color_spec(c, atten_factor(dist))
}

/// Scale each component by `f / SCALE`.
pub fn scale_color(c: Color, f: i64) -> (r: Color)
    requires
        color_wf(c),
        0 <= f <= SCALE,
    ensures
        r == scale_color_spec(c, f as int),
        color_wf(r),
{
    Color { r: comp_scale_exec(c.r, f), g: comp_scale_exec(c.g, f), b: comp_scale_exec(c.b, f) }
}

/// One component scaled by a unit factor, exactly.
fn comp_scale_exec(x: i64, f: i64) -> (r: i64)
    requires
        comp_ok(x),
        0 <= f <= SCALE,
    ensures
        r == comp_scaled(x as int, f as int),
        comp_ok(r),
        r <= x,
{
    proof {
        lemma_mul_abs_bound(x as int, f as int, COLOR_MAX as int, SCALE as int);
        vstd::arithmetic::div_mod::lemma_div_pos_is_pos(x as int * f as int, SCALE as int);
        assert(x * f <= x * SCALE) by (nonlinear_arith)
            requires
                0 <= x,
                f <= SCALE,
        ;
        vstd::arithmetic::div_mod::lemma_div_is_ordered(
            x as int * f as int,
            x as int * (SCALE as int),
            SCALE as int,
        );
        vstd::arithmetic::div_mod::lemma_div_multiples_vanish(x as int, SCALE as int);
        assert(x as int * (SCALE as int) == (SCALE as int) * (x as int));
    }
    let wide: i128 = (x as i128) * (f as i128);
    div_fl(wide, SCALE as i128) as i64
}

/// Display-encode a color for the final pixel write.
pub fn gamma_encode(c: Color) -> (r: Color)
    requires
        color_wf(c),
    ensures
        r == gamma_spec(c),
        color_wf(r),
{
    Color { r: comp_gamma_exec(c.r), g: comp_gamma_exec(c.g), b: comp_gamma_exec(c.b) }
}

/// One component of the display encoding.
fn comp_gamma_exec(x: i64) -> (r: i64)
    requires
        comp_ok(x),
    ensures
        r == comp_gamma(x as int),
        comp_ok(r),
{
    proof {
        lemma_mul_abs_bound(x as int, x as int, COLOR_MAX as int, COLOR_MAX as int);
        vstd::arithmetic::div_mod::lemma_div_pos_is_pos(x as int * x as int, SCALE as int);
    }
    let wide: i128 = div_fl((x as i128) * (x as i128), SCALE as i128);
    if wide > COLOR_MAX as i128 {
        COLOR_MAX
    } else {
        wide as i64
    }
}

/// Attenuate a color by fixed-point distance: `min(1, 2 / dist)`.
pub fn attenuate(c: Color, dist: i128) -> (r: Color)
    requires
        color_wf(c),
    ensures
        r == attenuate_spec(c, dist as int),
        color_wf(r),
{
    let f: i64 = if dist < 1 {
        SCALE
    } else {
        proof {
            vstd::arithmetic::div_mod::lemma_div_pos_is_pos(
                2 * (SCALE as int) * (SCALE as int),
                dist as int,
            );
        }
        let q: i128 = (2 * (SCALE as i128) * (SCALE as i128)) / dist;
        if q > SCALE as i128 {
            SCALE
        } else {
            q as i64
        }
    };
    scale_color(c, f)
}

/// Whether this frame's write to a pixel is skipped: the unit random draw
/// falls below the noise level, so noise `0` never skips and noise `SCALE`
/// always skips.
pub fn should_drop(draw: i64, noise: i64) -> (r: bool)
    requires
        0 <= draw < SCALE,
        0 <= noise <= SCALE,
    ensures
        r == (draw < noise),
        noise == 0 ==> !r,
        noise == SCALE ==> r,
{
    draw < noise
}

/// The fixed-point tangent of half the field of view.
pub open spec fn tan_half_spec(fov: int) -> int {
    let c = cos_spec(fov / 2);
    let cg = if c < 1 {
        1
    } else {
        c
    };
    let s = sin_spec(fov / 2);
    let sg = if s < 0 {
        0
    } else {
        s
    };
    (sg * SCALE) / cg
}

/// Compute the fixed-point tangent of half the field of view.
pub fn tan_half_fx(fov: i64) -> (r: i64)
    requires
        0 < fov < crate::camera::ANGLE_HALF,
    ensures
        r == tan_half_spec(fov as int),
        0 <= r <= 0x1_0000_0000,
{
    let half: i64 = fov / 2;
    let s: i64 = sin_fx(half);
    let c: i64 = cos_fx(half);
    let cg: i64 = if c < 1 {
        1
    } else {
        c
    };
    let sg: i64 = if s < 0 {
        0
    } else {
        s
    };
    proof {
        lemma_tan_half_in_range(sg as int, cg as int);
    }
    (sg * SCALE) / cg
}

/// The half-angle tangent ratio stays within `[0, SCALE * SCALE]` whenever
/// the sine is within its unit range, because the guarded cosine is at
/// least one.
proof fn lemma_tan_half_in_range(s: int, cg: int)
    requires
        0 <= s <= SCALE,
        1 <= cg <= SCALE,
    ensures
        0 <= (s * (SCALE as int)) / cg <= 0x1_0000_0000,
{
    vstd::arithmetic::div_mod::lemma_div_pos_is_pos(s * (SCALE as int), cg);
    assert(s * (SCALE as int) <= (SCALE as int) * (SCALE as int) * cg) by (nonlinear_arith)
        requires
            0 <= s <= SCALE,
            1 <= cg,
    ;
    vstd::arithmetic::div_mod::lemma_div_is_ordered(
        s * (SCALE as int),
        (SCALE as int) * (SCALE as int) * cg,
        cg,
    );
    assert((SCALE as int) * (SCALE as int) * cg == cg * ((SCALE as int) * (SCALE as int)))
        by (nonlinear_arith);
    vstd::arithmetic::div_mod::lemma_div_multiples_vanish((SCALE as int) * (SCALE as int), cg);
}

/// The floor of the square root, as the unique non-negative integer whose
/// square brackets `n`.
pub open spec fn sqrt_brackets(n: int, r: int) -> bool {
    0 <= r && r * r <= n && n < (r + 1) * (r + 1)
}

pub open spec fn floor_sqrt(n: int) -> int {
    choose|r: int| #[trigger] sqrt_brackets(n, r)
}

/// The bracketing property determines the floor square root uniquely.
pub proof fn lemma_floor_sqrt_unique(n: int, r: int)
    requires
        0 <= r,
        r * r <= n,
        n < (r + 1) * (r + 1),
    ensures
        floor_sqrt(n) == r,
{
    assert(sqrt_brackets(n, r));
    let q = floor_sqrt(n);
    assert(sqrt_brackets(n, q));
    if q < r {
        assert(false) by (nonlinear_arith)
            requires
                0 <= q,
                q < r,
                r * r <= n,
                n < (q + 1) * (q + 1),
        ;
    }
    if r < q {
        assert(false) by (nonlinear_arith)
            requires
                0 <= r,
                r < q,
                q * q <= n,
                n < (r + 1) * (r + 1),
        ;
    }
}

/// Integer square root by bisection.
pub fn isqrt(n: i128) -> (r: i128)
    requires
        0 <= n <= 0x4_0000_0000_0000_0000,
    ensures
        r == floor_sqrt(n as int),
        0 <= r <= 0x2_0000_0000,
{
    let mut lo: i128 = 0;
    let mut hi: i128 = 0x2_0000_0001;
    proof {
        assert(hi * hi > n);
    }
    while lo + 1 < hi
        invariant
            0 <= lo < hi <= 0x2_0000_0001,
            lo * lo <= n,
            hi * hi > n,
            0 <= n <= 0x4_0000_0000_0000_0000,
        decreases hi - lo,
    {
        let mid: i128 = lo + (hi - lo) / 2;
        proof {
            lemma_mul_abs_bound(mid as int, mid as int, 0x2_0000_0001, 0x2_0000_0001);
        }
        if mid * mid <= n {
            lo = mid;
        } else {
            hi = mid;
        }
    }
    proof {
        lemma_floor_sqrt_unique(n as int, lo as int);
    }
    lo
}

/// The squared fixed-point length of a wall.
pub open spec fn seg_norm2(s: crate::scene::Segment) -> int {
    crate::scene::dsx(s) * crate::scene::dsx(s) + crate::scene::dsy(s) * crate::scene::dsy(s)
}

/// The fixed-point physical length of a wall.
pub open spec fn seg_len_spec(s: crate::scene::Segment) -> int {
    floor_sqrt(seg_norm2(s))
}

/// Compute a wall's fixed-point physical length.
pub fn seg_len_fx(s: &crate::scene::Segment) -> (r: i64)
    requires
        segment_wf(*s),
    ensures
        r == seg_len_spec(*s),
        0 <= r <= 0x2_0000_0000,
{
    let dx: i128 = (s.b.x - s.a.x) as i128;
    let dy: i128 = (s.b.y - s.a.y) as i128;
    proof {
        lemma_mul_abs_bound(dx as int, dx as int, 0x1_0000_0000, 0x1_0000_0000);
        lemma_mul_abs_bound(dy as int, dy as int, 0x1_0000_0000, 0x1_0000_0000);
        assert(dx * dx >= 0 && dy * dy >= 0) by (nonlinear_arith);
    }
    isqrt(dx * dx + dy * dy) as i64
}

/// A persistent framebuffer of linear-color accumulators plus its output
/// dimensions; owned by the caller across frames, never cleared.
pub struct Renderer {
    pub width: usize,
    pub height: usize,
    pub cpu_texture: Vec<Color>,
}

/// A well-formed renderer: bounded non-degenerate dimensions, one
/// well-formed accumulator per pixel.
pub open spec fn renderer_wf(rd: Renderer) -> bool {
    &&& 2 <= rd.width <= MAX_DIM
    &&& 2 <= rd.height <= MAX_DIM
    &&& rd.cpu_texture.len() == rd.width * rd.height
    &&& forall|i: int| 0 <= i < rd.cpu_texture.len() ==> color_wf(#[trigger] rd.cpu_texture[i])
}

impl Renderer {
    /// Allocate a black framebuffer of the given dimensions; degenerate or
    /// oversized dimensions are refused, exactly then. A side of one is
    /// treated as degenerate too: the camera's ray fan needs at least two
    /// columns to sweep the field of view.
    pub fn new(width: usize, height: usize) -> (r: Option<Renderer>)
        ensures
            r is Some <==> (2 <= width <= MAX_DIM && 2 <= height <= MAX_DIM),
            r matches Some(rd) ==> {
                &&& renderer_wf(rd)
                &&& rd.width == width
                &&& rd.height == height
                &&& forall|i: int|
                    0 <= i < rd.cpu_texture.len() ==> #[trigger] rd.cpu_texture[i] == (Color {
                        r: 0,
                        g: 0,
                        b: 0,
                    })
            },
    {
        if width < 2 || width > MAX_DIM || height < 2 || height > MAX_DIM {
            return None;
        }
        proof {
            lemma_mul_abs_bound(width as int, height as int, MAX_DIM as int, MAX_DIM as int);
        }
        let n: usize = width * height;
        let mut cells: Vec<Color> = Vec::new();
        let mut i: usize = 0;
        while i < n
            invariant
                0 <= i <= n,
                cells.len() == i,
                forall|j: int| 0 <= j < i ==> #[trigger] cells[j] == (Color { r: 0, g: 0, b: 0 }),
            decreases n - i,
        {
            cells.push(Color { r: 0, g: 0, b: 0 });
            i = i + 1;
        }
        Some(Renderer { width, height, cpu_texture: cells })
    }

    /// Output width in pixels.
    pub fn width(&self) -> (w: usize)
        ensures
            w == self.width,
    {
        self.width
    }

    /// Output height in pixels.
    pub fn height(&self) -> (h: usize)
        ensures
            h == self.height,
    {
        self.height
    }

    /// Surrender the accumulator buffer, for reseeding a successor renderer
    /// after a resolution change.
    pub fn into_cpu_texture(self) -> (r: Vec<Color>)
        ensures
            r@ == self.cpu_texture@,
    {
        self.cpu_texture
    }

    /// Reseed this framebuffer from a prior buffer of different dimensions
    /// by nearest-neighbor resampling: every new cell takes the old cell its
    /// normalized position lands on, preserving the temporal trail across a
    /// resolution change.
    pub fn set_cpu_texture(&mut self, texture: Vec<Color>, old_width: usize, old_height: usize)
        requires
            renderer_wf(*old(self)),
            1 <= old_width <= MAX_DIM,
            1 <= old_height <= MAX_DIM,
            texture.len() == old_width * old_height,
            forall|i: int| 0 <= i < texture.len() ==> color_wf(#[trigger] texture[i]),
        ensures
            renderer_wf(*final(self)),
            final(self).width == old(self).width,
            final(self).height == old(self).height,
            forall|x: int, y: int|
                0 <= x < old(self).width && 0 <= y < old(self).height
                    ==> #[trigger] final(self).cpu_texture[y * old(self).width + x]
                    == texture[((y * old_height) / (old(self).height as int)) * old_width
                    + (x * old_width) / (old(self).width as int)],
    {
        let w = self.width;
        let h = self.height;
        let ow = old_width;
        let oh = old_height;
        let mut i: usize = 0;
        let n = self.cpu_texture.len();
        while i < n
            invariant
                renderer_wf(*self),
                self.width == w,
                self.height == h,
                n == self.cpu_texture.len(),
                n == w * h,
                2 <= w <= MAX_DIM,
                2 <= h <= MAX_DIM,
                1 <= ow <= MAX_DIM,
                1 <= oh <= MAX_DIM,
                texture.len() == ow * oh,
                forall|k: int| 0 <= k < texture.len() ==> color_wf(#[trigger] texture[k]),
                0 <= i <= n,
                forall|x: int, y: int|
                    0 <= x < w && 0 <= y < h && y * w + x < i ==> #[trigger] self.cpu_texture[y * w
                        + x] == texture[((y * oh) / (h as int)) * ow + (x * ow) / (w as int)],
            decreases n - i,
        {
            let y: usize = i / w;
            let x: usize = i % w;
            proof {
                crate::fixed::lemma_div_below(i as int, w as int, h as int);
                vstd::arithmetic::div_mod::lemma_mod_bound(i as int, w as int);
                vstd::arithmetic::div_mod::lemma_fundamental_div_mod(i as int, w as int);
                lemma_mul_abs_bound(x as int, ow as int, MAX_DIM as int, MAX_DIM as int);
                lemma_mul_abs_bound(y as int, oh as int, MAX_DIM as int, MAX_DIM as int);
                assert(x * ow < w * ow) by (nonlinear_arith)
                    requires
                        0 <= x < w,
                        1 <= ow,
                ;
                assert(y * oh < h * oh) by (nonlinear_arith)
                    requires
                        0 <= y < h,
                        1 <= oh,
                ;
                crate::fixed::lemma_div_below((x * ow) as int, w as int, ow as int);
                crate::fixed::lemma_div_below((y * oh) as int, h as int, oh as int);
                vstd::arithmetic::div_mod::lemma_div_pos_is_pos((x * ow) as int, w as int);
                vstd::arithmetic::div_mod::lemma_div_pos_is_pos((y * oh) as int, h as int);
            }
            let a: usize = (x * ow) / w;
            let b: usize = (y * oh) / h;
            proof {
                crate::texture::lemma_row_major_index(ow as int, oh as int, a as int, b as int);
            }
            let c: Color = texture[a + b * ow];
            self.cpu_texture.set(i, c);
            proof {
                crate::texture::lemma_row_major_index(w as int, h as int, x as int, y as int);
                assert((y as int) * (w as int) == (w as int) * (y as int)) by (nonlinear_arith);
                assert(i == (y as int) * (w as int) + (x as int));
                assert forall|x2: int, y2: int|
                    0 <= x2 < w && 0 <= y2 < h && y2 * w + x2 < i + 1 implies #[trigger] self
                    .cpu_texture[y2 * w + x2] == texture[((y2 * oh) / (h as int)) * ow + (x2 * ow)
                    / (w as int)] by {
                    if y2 * w + x2 == i {
                        lemma_grid_index_injective(w as int, h as int, x as int, y as int, x2, y2);
                        assert(x2 == x as int && y2 == y as int);
                    }
                }
            }
            i = i + 1;
        }
        proof {
            assert forall|x: int, y: int| 0 <= x < w && 0 <= y < h implies #[trigger] self
                .cpu_texture[y * w + x] == texture[((y * oh) / (h as int)) * ow + (x * ow) / (
            w as int)] by {
                crate::texture::lemma_row_major_index(w as int, h as int, x, y);
            }
        }
    }
}

/// Two distinct grid cells have distinct row-major indices.
pub proof fn lemma_grid_index_injective(w: int, h: int, x1: int, y1: int, x2: int, y2: int)
    by (nonlinear_arith)
    requires
        1 <= w,
        0 <= x1 < w,
        0 <= x2 < w,
        ensures
        (x1, y1) != (x2, y2) ==> y1 * w + x1 != y2 * w + x2,
{
}

/// Resampling without an actual size change is the identity: each cell maps
/// back onto itself.
pub proof fn lemma_resample_identity(w: int, h: int, x: int, y: int)
    requires
        1 <= w,
        1 <= h,
        0 <= x < w,
        0 <= y < h,
    ensures
        ((y * h) / h) * w + (x * w) / w == y * w + x,
{
    vstd::arithmetic::div_mod::lemma_div_multiples_vanish(y, h);
    vstd::arithmetic::div_mod::lemma_div_multiples_vanish(x, w);
    assert(y * h == h * y && x * w == w * x) by (nonlinear_arith);
}

/// Clamp a texture coordinate into the range the sampler accepts.
pub open spec fn clamp_uv(v: int) -> int {
    if v < -crate::texture::UV_BOUND {
        -crate::texture::UV_BOUND as int
    } else if v > crate::texture::UV_BOUND {
        crate::texture::UV_BOUND as int
    } else {
        v
    }
}

/// The unclamped wall height in pixels for a corrected distance: the
/// projection distance over the hit distance, rounded down to even.
pub open spec fn wall_height_spec(w: int, fov: int, dist: int) -> int {
    let th = tan_half_spec(fov);
    let thg = if th < 1 {
        1
    } else {
        th
    };
    let proj = (w * (SCALE as int) * (SCALE as int)) / (2 * thg);
    let de = if dist < 1 {
        1
    } else {
        dist
    };
    let wh = proj / de;
    wh - wh % 2
}

/// The vertical texture coordinate of row `y` within a wall of unclamped
/// height `wh` on a screen of height `h`.
pub open spec fn wall_v_spec(y: int, wh: int, h: int) -> int {
    let whg = if wh < 1 {
        1
    } else {
        wh
    };
    clamp_uv(((y + wh / 2 - h / 2) * (SCALE as int)) / whg)
}

/// The floor/ceiling color of row `y`: the row is inverted to a world
/// distance, the ray projected out by it, and an infinite checkerboard
/// shade chosen by the parity of the world cell, attenuated by distance.
pub open spec fn floor_ceil_spec(y: int, w: int, h: int, r: Ray, cam: Camera) -> Color {
    let hv = if y < h / 2 {
        SCALE - (2 * y * (SCALE as int)) / h
    } else {
        (2 * (y + 1) * (SCALE as int)) / h - SCALE
    };
    let vv = if hv < 1 {
        1
    } else {
        hv
    };
    let fwdx = cos_spec(cam.rot as int);
    let fwdy = sin_spec(cam.rot as int);
    let pl = abs_int(r.dir.x * fwdx + r.dir.y * fwdy) / (SCALE as int);
    if pl == 0 {
        Color { r: 0, g: 0, b: 0 }
    } else {
        let corrected = ((SCALE as int) * (SCALE as int)) / vv;
        let th = tan_half_spec(cam.fov as int);
        let thg = if th < 1 {
            1
        } else {
            th
        };
        let sc = ((((w * (SCALE as int)) / h) * (SCALE as int)) / thg) / 2;
        let t1 = (corrected * (SCALE as int)) / pl;
        let rdist = (t1 * sc) / (SCALE as int);
        let reg = if rdist < 1 {
            1
        } else {
            rdist
        };
        let px = r.origin.x + (r.dir.x * rdist) / (SCALE as int);
        let py = r.origin.y + (r.dir.y * rdist) / (SCALE as int);
        let wx = px / (SCALE as int);
        let wy = py / (SCALE as int);
        let shade: int = if (wx + wy) % 2 == 0 {
            0
        } else {
            13107
        };
        attenuate_spec(Color { r: shade as i64, g: shade as i64, b: shade as i64 }, reg)
    }
}

/// Ceiling and floor mirror exactly about the screen's horizontal midline
/// whenever the height divides `2 * SCALE` evenly (every power-of-two
/// height): the bottom half's `(y + 1)` convention makes row `y` and row
/// `h - 1 - y` invert to the same vertical coordinate, so their shades
/// agree. For other heights the two rows' coordinates can differ by one
/// fixed-point step of floor rounding.
pub proof fn lemma_floor_ceil_mirror(y: int, w: int, h: int, r: Ray, cam: Camera)
    requires
        2 <= h,
        h % 2 == 0,
        (2 * SCALE) % h == 0,
        0 <= y < h / 2,
    ensures
        floor_ceil_spec(y, w, h, r, cam) == floor_ceil_spec(h - 1 - y, w, h, r, cam),
{
    let m = (2 * (SCALE as int)) / h;
    vstd::arithmetic::div_mod::lemma_fundamental_div_mod(2 * (SCALE as int), h);
    assert(2 * (SCALE as int) == h * m);
    assert(2 * y * (SCALE as int) == h * (y * m)) by (nonlinear_arith)
        requires
            2 * (SCALE as int) == h * m,
    ;
    vstd::arithmetic::div_mod::lemma_div_multiples_vanish(y * m, h);
    assert((2 * y * (SCALE as int)) / h == y * m);
    let yb = h - 1 - y;
    assert(2 * (yb + 1) * (SCALE as int) == h * (2 * SCALE - y * m)) by (nonlinear_arith)
        requires
            2 * (SCALE as int) == h * m,
            yb == h - 1 - y,
    ;
    vstd::arithmetic::div_mod::lemma_div_multiples_vanish(2 * (SCALE as int) - y * m, h);
    assert((2 * (yb + 1) * (SCALE as int)) / h == 2 * (SCALE as int) - y * m);
    assert(yb >= h / 2);
    assert(SCALE - (2 * y * (SCALE as int)) / h == (2 * (yb + 1) * (SCALE as int)) / h - SCALE);
}

/// Compute the floor/ceiling color of row `y` for a ray.
pub fn floor_ceil(y: usize, width: usize, height: usize, r: &Ray, camera: &Camera) -> (res: Color)
    requires
        y < height,
        2 <= width <= MAX_DIM,
        2 <= height <= MAX_DIM,
        ray_wf(*r),
        camera_wf(*camera),
    ensures
        res == floor_ceil_spec(y as int, width as int, height as int, *r, *camera),
        color_wf(res),
{
    let h: i64 = height as i64;
    let yi: i64 = y as i64;
    let hv: i64 = if yi < h / 2 {
        SCALE - (2 * yi * SCALE) / h
    } else {
        (2 * (yi + 1) * SCALE) / h - SCALE
    };
    let vv: i64 = if hv < 1 {
        1
    } else {
        hv
    };
    let fwdx: i64 = cos_fx(camera.rot);
    let fwdy: i64 = sin_fx(camera.rot);
    proof {
        lemma_mul_abs_bound(r.dir.x as int, fwdx as int, 0x2_0000_0000, 0x2_0000);
        lemma_mul_abs_bound(r.dir.y as int, fwdy as int, 0x2_0000_0000, 0x2_0000);
    }
    let dotp: i128 = (r.dir.x as i128) * (fwdx as i128) + (r.dir.y as i128) * (fwdy as i128);
    let ap: i128 = if dotp >= 0 {
        dotp
    } else {
        -dotp
    };
    let pl: i128 = ap / (SCALE as i128);
    if pl == 0 {
        return Color { r: 0, g: 0, b: 0 };
    }
    proof {
        vstd::arithmetic::div_mod::lemma_div_pos_is_pos(ap as int, SCALE as int);
    }
    let corrected: i128 = ((SCALE as i128) * (SCALE as i128)) / (vv as i128);
    let th: i64 = tan_half_fx(camera.fov);
    let thg: i128 = if th < 1 {
        1
    } else {
        th as i128
    };
    let sc: i128 = ((((width as i128) * (SCALE as i128)) / (height as i128)) * (SCALE as i128))
        / thg / 2;
    let t1: i128 = (corrected * (SCALE as i128)) / pl;
    proof {
        crate::fixed::lemma_div_in_range((SCALE as int) * (SCALE as int), vv as int);
        crate::fixed::lemma_div_in_range((corrected * (SCALE as int)) as int, pl as int);
        crate::fixed::lemma_div_in_range((width as int) * (SCALE as int), height as int);
        crate::fixed::lemma_div_in_range(
            ((((width as int) * (SCALE as int)) / (height as int)) * (SCALE as int)) as int,
            thg as int,
        );
        crate::fixed::lemma_div_in_range(
            (((((width as int) * (SCALE as int)) / (height as int)) * (SCALE as int)) / (
            thg as int)) as int,
            2,
        );
        lemma_mul_abs_bound(
            t1 as int,
            sc as int,
            0x1_0000_0000_0000,
            0x4000_0000_0000,
        );
        vstd::arithmetic::div_mod::lemma_div_is_ordered(
            (t1 * sc) as int,
            0x4000_0000_0000_0000_0000_0000,
            SCALE as int,
        );
        vstd::arithmetic::div_mod::lemma_div_is_ordered(
            -0x4000_0000_0000_0000_0000_0000,
            (t1 * sc) as int,
            SCALE as int,
        );
    }
    let rdist: i128 = (t1 * sc) / (SCALE as i128);
    let reg: i128 = if rdist < 1 {
        1
    } else {
        rdist
    };
    proof {
        vstd::arithmetic::div_mod::lemma_div_pos_is_pos((t1 * sc) as int, SCALE as int);
        crate::fixed::lemma_div_in_range((t1 * sc) as int, SCALE as int);
        lemma_mul_abs_bound(
            r.dir.x as int,
            rdist as int,
            0x2_0000_0000,
            0x4000_0000_0000_0000_0000,
        );
        lemma_mul_abs_bound(
            r.dir.y as int,
            rdist as int,
            0x2_0000_0000,
            0x4000_0000_0000_0000_0000,
        );
        crate::fixed::lemma_div_in_range(((r.dir.x as int) * (rdist as int)) as int, SCALE as int);
        crate::fixed::lemma_div_in_range(((r.dir.y as int) * (rdist as int)) as int, SCALE as int);
    }
    let px: i128 = (r.origin.x as i128) + div_fl((r.dir.x as i128) * rdist, SCALE as i128);
    let py: i128 = (r.origin.y as i128) + div_fl((r.dir.y as i128) * rdist, SCALE as i128);
    let wx: i128 = div_fl(px, SCALE as i128);
    let wy: i128 = div_fl(py, SCALE as i128);
    proof {
        crate::fixed::lemma_div_in_range(px as int, SCALE as int);
        crate::fixed::lemma_div_in_range(py as int, SCALE as int);
    }
    let par: i128 = rem_fl(wx + wy, 2);
    let shade: i64 = if par == 0 {
        0
    } else {
        13107
    };
    attenuate(Color { r: shade, g: shade, b: shade }, reg)
}

/// Which values a wall pixel may take: some admissible texture sample at
/// the spot, attenuated by the corrected distance, display-encoded.
pub open spec fn wall_pixel_ok(
    t: crate::texture::Texture,
    u: int,
    v: int,
    len: int,
    dist: int,
    val: Color,
) -> bool {
    exists|c: Color| #[trigger] sample_rel(t, u, v, len, c) && val == gamma_spec(
        attenuate_spec(c, dist),
    )
}

/// The outcome one frame leaves in the cell at `(x, y)`, given the cell's
/// prior accumulator value: either the decayed prior value, when the
/// dropout skipped the pixel — possible only at a nonzero noise level — or
/// a freshly written, display-encoded color — a floor/ceiling shade when
/// the column's ray misses or the row lies outside the wall span, or an
/// admissible texture sample of the nearest wall, attenuated by the
/// fisheye-corrected distance, when inside it; a write is possible only
/// below full noise, except on a wall of the glitch kind, which bypasses
/// the dropout and is written every frame.
pub open spec fn cell_outcome(
    prior: Color,
    now: Color,
    sc: Scene,
    cam: Camera,
    factor: int,
    w: int,
    h: int,
    x: int,
    y: int,
) -> bool {
    let base = scale_color_spec(prior, factor);
    let r = ray_spec(cam, w, x);
    let j = best_hit_idx(sc.segments@, r);
    let skipped = cam.noise > 0 && now == base;
    let floorv = cam.noise < SCALE && now == gamma_spec(floor_ceil_spec(y, w, h, r, cam));
    if j == -1 {
        skipped || floorv
    } else {
        let sg = sc.segments@[j];
        let dist = perp_dist_spec(cam, seg_point_spec(sg, r));
        let wh = wall_height_spec(w, cam.fov as int, dist);
        let ch = if wh < h {
            wh
        } else {
            h as int
        };
        let space = (h - ch) / 2;
        if space <= y < space + ch {
            let wp = wall_pixel_ok(
                sg.texture,
                seg_u_fx(sg, r),
                wall_v_spec(y, wh, h),
                seg_len_spec(sg),
                dist,
                now,
            );
            if sg.texture is Glitch {
                wp
            } else {
                (cam.noise < SCALE && wp) || skipped
            }
        } else {
            skipped || floorv
        }
    }
}

/// The frame's outcome for the cell at `(x, y)` of a row-major buffer.
pub open spec fn cell_ok(
    prev: Seq<Color>,
    cur: Seq<Color>,
    sc: Scene,
    cam: Camera,
    factor: int,
    w: int,
    h: int,
    x: int,
    y: int,
) -> bool {
    cell_outcome(prev[y * w + x], cur[y * w + x], sc, cam, factor, w, h, x, y)
}

/// A cell freshly written this frame: the floor/ceiling shade off the wall
/// span or on a missing column, an admissible wall pixel inside it — never
/// the decayed prior value.
pub open spec fn cell_written(
    prior: Color,
    now: Color,
    sc: Scene,
    cam: Camera,
    factor: int,
    w: int,
    h: int,
    x: int,
    y: int,
) -> bool {
    let r = ray_spec(cam, w, x);
    let j = best_hit_idx(sc.segments@, r);
    let floorv = now == gamma_spec(floor_ceil_spec(y, w, h, r, cam));
    if j == -1 {
        floorv
    } else {
        let sg = sc.segments@[j];
        let dist = perp_dist_spec(cam, seg_point_spec(sg, r));
        let wh = wall_height_spec(w, cam.fov as int, dist);
        let ch = if wh < h {
            wh
        } else {
            h as int
        };
        let space = (h - ch) / 2;
        if space <= y < space + ch {
            wall_pixel_ok(
                sg.texture,
                seg_u_fx(sg, r),
                wall_v_spec(y, wh, h),
                seg_len_spec(sg),
                dist,
                now,
            )
        } else {
            floorv
        }
    }
}

/// With the noise scalar at zero the dropout never fires: every cell's
/// outcome is a freshly written color for this frame, never the decayed
/// prior value by way of a skip.
pub proof fn lemma_noise_zero_writes_every_cell(
    prior: Color,
    now: Color,
    sc: Scene,
    cam: Camera,
    factor: int,
    w: int,
    h: int,
    x: int,
    y: int,
)
    requires
        cell_outcome(prior, now, sc, cam, factor, w, h, x, y),
        cam.noise == 0,
    ensures
        cell_written(prior, now, sc, cam, factor, w, h, x, y),
{
}

/// With the noise scalar at one the dropout always fires: a cell of a
/// column that misses, or whose wall is not of the glitch kind, holds
/// exactly the decayed prior value — the frame is pure decay of the
/// previous one wherever no glitch wall stands.
pub proof fn lemma_noise_full_pure_decay(
    prior: Color,
    now: Color,
    sc: Scene,
    cam: Camera,
    factor: int,
    w: int,
    h: int,
    x: int,
    y: int,
)
    requires
        cell_outcome(prior, now, sc, cam, factor, w, h, x, y),
        cam.noise == SCALE,
        ({
            let j = best_hit_idx(sc.segments@, ray_spec(cam, w, x));
            j == -1 || !(sc.segments@[j].texture is Glitch)
        }),
    ensures
        now == scale_color_spec(prior, factor),
{
}

/// Whether row `y` of column `x` lies inside the vertically centered span
/// of the column's nearest wall (false when the column misses).
pub open spec fn wall_span_contains(sc: Scene, cam: Camera, w: int, h: int, x: int, y: int) -> bool {
    let r = ray_spec(cam, w, x);
    let j = best_hit_idx(sc.segments@, r);
    j != -1 && {
        let sg = sc.segments@[j];
        let dist = perp_dist_spec(cam, seg_point_spec(sg, r));
        let wh = wall_height_spec(w, cam.fov as int, dist);
        let ch = if wh < h {
            wh
        } else {
            h as int
        };
        let space = (h - ch) / 2;
        space <= y < space + ch
    }
}

/// A floor/ceiling write settles the cell: off the wall span (or on a
/// missing column), below full noise, a cell holding the display-encoded
/// floor/ceiling shade meets its frame outcome.
proof fn lemma_outcome_floor_write(
    prior: Color,
    now: Color,
    sc: Scene,
    cam: Camera,
    factor: int,
    w: int,
    h: int,
    x: int,
    y: int,
)
    requires
        !wall_span_contains(sc, cam, w, h, x, y),
        cam.noise < SCALE,
        now == gamma_spec(floor_ceil_spec(y, w, h, ray_spec(cam, w, x), cam)),
    ensures
        cell_outcome(prior, now, sc, cam, factor, w, h, x, y),
{
}

/// A dropout skip settles the cell: holding the decayed prior value meets
/// the frame outcome at a nonzero noise level, wherever the glitch rule
/// does not force a write.
proof fn lemma_outcome_skip(
    prior: Color,
    now: Color,
    sc: Scene,
    cam: Camera,
    factor: int,
    w: int,
    h: int,
    x: int,
    y: int,
)
    requires
        cam.noise > 0,
        now == scale_color_spec(prior, factor),
        wall_span_contains(sc, cam, w, h, x, y) ==> !(sc.segments@[best_hit_idx(
            sc.segments@,
            ray_spec(cam, w, x),
        )].texture is Glitch),
    ensures
        cell_outcome(prior, now, sc, cam, factor, w, h, x, y),
{
}

/// A wall write settles the cell: inside the wall span, a cell holding an
/// admissible wall pixel meets its frame outcome — on a glitch wall
/// unconditionally, elsewhere below full noise.
proof fn lemma_outcome_wall_write(
    prior: Color,
    now: Color,
    sc: Scene,
    cam: Camera,
    factor: int,
    w: int,
    h: int,
    x: int,
    y: int,
)
    requires
        wall_span_contains(sc, cam, w, h, x, y),
        ({
            let r = ray_spec(cam, w, x);
            let j = best_hit_idx(sc.segments@, r);
            let sg = sc.segments@[j];
            let dist = perp_dist_spec(cam, seg_point_spec(sg, r));
            &&& (sg.texture is Glitch || cam.noise < SCALE)
            &&& wall_pixel_ok(
                sg.texture,
                seg_u_fx(sg, r),
                wall_v_spec(y, wall_height_spec(w, cam.fov as int, dist), h),
                seg_len_spec(sg),
                dist,
                now,
            )
        }),
    ensures
        cell_outcome(prior, now, sc, cam, factor, w, h, x, y),
{
}

/// One buffer write touches exactly its own cell: every other grid cell
/// keeps its value, because distinct cells have distinct row-major indices.
proof fn lemma_cells_after_write(
    pre: Seq<Color>,
    cur: Seq<Color>,
    w: int,
    h: int,
    x: int,
    y: int,
    gv: Color,
)
    requires
        1 <= w,
        1 <= h,
        0 <= x < w,
        0 <= y < h,
        pre.len() == w * h,
        cur == pre.update(y * w + x, gv),
    ensures
        cur.len() == pre.len(),
        cur[y * w + x] == gv,
        forall|a: int, b: int|
            0 <= a < w && 0 <= b < h && !(a == x && b == y) ==> #[trigger] cur[b * w + a] == pre[b
                * w + a],
{
    crate::texture::lemma_row_major_index(w, h, x, y);
    assert forall|a: int, b: int|
        0 <= a < w && 0 <= b < h && !(a == x && b == y) implies #[trigger] cur[b * w + a] == pre[b
        * w + a] by {
        lemma_grid_index_injective(w, h, x, y, a, b);
        crate::texture::lemma_row_major_index(w, h, a, b);
    }
}

/// Once the cell at `(x, y)` has settled into its frame outcome and no
/// other cell moved, the column-major progress claims advance one row: the
/// settled prefix grows by the cell, and every later cell still holds its
/// decayed value.
proof fn lemma_cells_framed(
    prev: Seq<Color>,
    dec: Seq<Color>,
    pre: Seq<Color>,
    cur: Seq<Color>,
    sc: Scene,
    cam: Camera,
    factor: int,
    w: int,
    h: int,
    x: int,
    y: int,
)
    requires
        1 <= w,
        1 <= h,
        0 <= x < w,
        0 <= y < h,
        prev.len() == w * h,
        dec.len() == w * h,
        pre.len() == w * h,
        cur.len() == w * h,
        forall|a: int, b: int|
            (0 <= a < x && 0 <= b < h) || (a == x && 0 <= b < y) ==> #[trigger] cell_ok(
                prev,
                pre,
                sc,
                cam,
                factor,
                w,
                h,
                a,
                b,
            ),
        forall|a: int, b: int|
            0 <= a < w && 0 <= b < h && (a > x || (a == x && b >= y)) ==> #[trigger] pre[b * w + a]
                == dec[b * w + a],
        forall|a: int, b: int|
            0 <= a < w && 0 <= b < h && !(a == x && b == y) ==> #[trigger] cur[b * w + a] == pre[b
                * w + a],
        cell_outcome(prev[y * w + x], cur[y * w + x], sc, cam, factor, w, h, x, y),
    ensures
        forall|a: int, b: int|
            (0 <= a < x && 0 <= b < h) || (a == x && 0 <= b < y + 1) ==> #[trigger] cell_ok(
                prev,
                cur,
                sc,
                cam,
                factor,
                w,
                h,
                a,
                b,
            ),
        forall|a: int, b: int|
            0 <= a < w && 0 <= b < h && (a > x || (a == x && b >= y + 1)) ==> #[trigger] cur[b * w
                + a] == dec[b * w + a],
{
    assert forall|a: int, b: int|
        (0 <= a < x && 0 <= b < h) || (a == x && 0 <= b < y + 1) implies #[trigger] cell_ok(
        prev,
        cur,
        sc,
        cam,
        factor,
        w,
        h,
        a,
        b,
    ) by {
        if a == x && b == y {
            assert(cell_ok(prev, cur, sc, cam, factor, w, h, a, b));
        } else {
            assert(cell_ok(prev, pre, sc, cam, factor, w, h, a, b));
            assert(cur[b * w + a] == pre[b * w + a]);
        }
    }
    assert forall|a: int, b: int|
        0 <= a < w && 0 <= b < h && (a > x || (a == x && b >= y + 1)) implies #[trigger] cur[b * w
        + a] == dec[b * w + a] by {
        assert(cur[b * w + a] == pre[b * w + a]);
        assert(pre[b * w + a] == dec[b * w + a]);
    }
}

impl Renderer {
    /// Write one display-encoded pixel into the accumulator.
    fn put_pixel(&mut self, x: usize, y: usize, c: Color)
        requires
            renderer_wf(*old(self)),
            x < old(self).width,
            y < old(self).height,
            color_wf(c),
        ensures
            renderer_wf(*final(self)),
            final(self).width == old(self).width,
            final(self).height == old(self).height,
            final(self).cpu_texture@ == old(self).cpu_texture@.update(
                y * old(self).width + x,
                gamma_spec(c),
            ),
    {
        proof {
            crate::texture::lemma_row_major_index(
                self.width as int,
                self.height as int,
                x as int,
                y as int,
            );
            lemma_mul_abs_bound(y as int, self.width as int, MAX_DIM as int, MAX_DIM as int);
        }
        let g = gamma_encode(c);
        self.cpu_texture.set(y * self.width + x, g);
    }

    /// Render one frame: decay every cell by the given unit factor, then
    /// fill each column from its ray's nearest hit — the wall span vertically
    /// centered from the fisheye-corrected distance, floor and ceiling
    /// elsewhere — with the per-pixel random dropout governed by the
    /// camera's noise scalar. Every cell's outcome is pinned by
    /// `cell_ok`: the decayed prior value where the dropout skipped, or a
    /// freshly written, display-encoded color, glitch walls bypassing the
    /// dropout.
    #[verifier::rlimit(100)]
    pub fn draw(&mut self, scene: &Scene, camera: &Camera, decay_factor: i64)
        requires
            renderer_wf(*old(self)),
            scene_wf(*scene),
            camera_wf(*camera),
            0 <= decay_factor <= SCALE,
        ensures
            renderer_wf(*final(self)),
            final(self).width == old(self).width,
            final(self).height == old(self).height,
            forall|x: int, y: int|
                0 <= x < old(self).width && 0 <= y < old(self).height ==> #[trigger] cell_ok(
                    old(self).cpu_texture@,
                    final(self).cpu_texture@,
                    *scene,
                    *camera,
                    decay_factor as int,
                    old(self).width as int,
                    old(self).height as int,
                    x,
                    y,
                ),
    {
        let ghost prev = self.cpu_texture@;
        let w = self.width;
        let h = self.height;
        let n = self.cpu_texture.len();
        let mut i: usize = 0;
        while i < n
            invariant
                renderer_wf(*self),
                self.width == w,
                self.height == h,
                n == self.cpu_texture.len(),
                prev.len() == n,
                0 <= decay_factor <= SCALE,
                0 <= i <= n,
                forall|j: int|
                    0 <= j < i ==> #[trigger] self.cpu_texture@[j] == scale_color_spec(
                        prev[j],
                        decay_factor as int,
                    ),
                forall|j: int| i <= j < n ==> #[trigger] self.cpu_texture@[j] == prev[j],
            decreases n - i,
        {
            let c = scale_color(self.cpu_texture[i], decay_factor);
            self.cpu_texture.set(i, c);
            i = i + 1;
        }
        let rays = camera.get_rays(w);
        let ghost dec = self.cpu_texture@;
        let mut x: usize = 0;
        while x < w
            invariant
                renderer_wf(*self),
                self.width == w,
                self.height == h,
                n == self.cpu_texture.len(),
                n == w * h,
                prev.len() == n,
                dec.len() == n,
                scene_wf(*scene),
                camera_wf(*camera),
                0 <= decay_factor <= SCALE,
                rays.len() == w,
                forall|k: int| 0 <= k < w ==> #[trigger] rays[k] == ray_spec(*camera, w as int, k),
                forall|j: int|
                    0 <= j < n ==> #[trigger] dec[j] == scale_color_spec(
                        prev[j],
                        decay_factor as int,
                    ),
                0 <= x <= w,
                forall|a: int, b: int|
                    0 <= a < x && 0 <= b < h ==> #[trigger] cell_ok(
                        prev,
                        self.cpu_texture@,
                        *scene,
                        *camera,
                        decay_factor as int,
                        w as int,
                        h as int,
                        a,
                        b,
                    ),
                forall|a: int, b: int|
                    x <= a < w && 0 <= b < h ==> #[trigger] self.cpu_texture@[b * w + a] == dec[b
                        * w + a],
            decreases w - x,
        {
            let ray: Ray = rays[x];
            proof {
                crate::camera::lemma_sin_bounds(
                    crate::camera::ray_theta(*camera, w as int, x as int),
                );
                crate::camera::lemma_sin_bounds(
                    crate::camera::ray_theta(*camera, w as int, x as int)
                        + crate::camera::ANGLE_QUARTER,
                );
                assert(ray_wf(ray));
            }
            let hit = scene.sample(&ray);
            match hit {
                None => {
                    let mut y: usize = 0;
                    while y < h
                        invariant
                            renderer_wf(*self),
                            self.width == w,
                            self.height == h,
                            n == self.cpu_texture.len(),
                            n == w * h,
                            prev.len() == n,
                            dec.len() == n,
                            scene_wf(*scene),
                            camera_wf(*camera),
                            0 <= decay_factor <= SCALE,
                            0 <= x < w,
                            2 <= w <= MAX_DIM,
                            2 <= h <= MAX_DIM,
                            ray == ray_spec(*camera, w as int, x as int),
                            ray_wf(ray),
                            best_hit_idx(scene.segments@, ray) == -1,
                            forall|j: int|
                                0 <= j < n ==> #[trigger] dec[j] == scale_color_spec(
                                    prev[j],
                                    decay_factor as int,
                                ),
                            0 <= y <= h,
                            forall|a: int, b: int|
                                (0 <= a < x && 0 <= b < h) || (a == x && 0 <= b < y)
                                    ==> #[trigger] cell_ok(
                                    prev,
                                    self.cpu_texture@,
                                    *scene,
                                    *camera,
                                    decay_factor as int,
                                    w as int,
                                    h as int,
                                    a,
                                    b,
                                ),
                            forall|a: int, b: int|
                                0 <= a < w && 0 <= b < h && (a > x || (a == x && b >= y))
                                    ==> #[trigger] self.cpu_texture@[b * w + a] == dec[b * w + a],
                        decreases h - y,
                    {
                        let ghost pre = self.cpu_texture@;
                        let dr = crate::texture::random_unit();
                        if !should_drop(dr, camera.noise) {
                            let c = floor_ceil(y, w, h, &ray, camera);
                            self.put_pixel(x, y, c);
                            proof {
                                crate::texture::lemma_row_major_index(
                                    w as int,
                                    h as int,
                                    x as int,
                                    y as int,
                                );
                                lemma_cells_after_write(
                                    pre,
                                    self.cpu_texture@,
                                    w as int,
                                    h as int,
                                    x as int,
                                    y as int,
                                    gamma_spec(c),
                                );
                                assert(camera.noise < SCALE);
                                assert(self.cpu_texture@[(y as int) * (w as int) + (x as int)]
                                    == gamma_spec(c));
                                assert(c == floor_ceil_spec(
                                    y as int,
                                    w as int,
                                    h as int,
                                    ray_spec(*camera, w as int, x as int),
                                    *camera,
                                ));
                                assert(!wall_span_contains(*scene, *camera, w as int, h as int, x as int, y as int));
                                lemma_outcome_floor_write(
                                    prev[(y as int) * (w as int) + (x as int)],
                                    self.cpu_texture@[(y as int) * (w as int) + (x as int)],
                                    *scene,
                                    *camera,
                                    decay_factor as int,
                                    w as int,
                                    h as int,
                                    x as int,
                                    y as int,
                                );
                            }
                        } else {
                            proof {
                                assert(self.cpu_texture@[(y as int) * (w as int) + (x as int)]
                                    == dec[(y as int) * (w as int) + (x as int)]);
                                assert(!wall_span_contains(*scene, *camera, w as int, h as int, x as int, y as int));
                                crate::texture::lemma_row_major_index(w as int, h as int, x as int, y as int);
                                assert(dec[(y as int) * (w as int) + (x as int)] == scale_color_spec(prev[(y as int) * (w as int) + (x as int)], decay_factor as int));
                                lemma_outcome_skip(
                                    prev[(y as int) * (w as int) + (x as int)],
                                    self.cpu_texture@[(y as int) * (w as int) + (x as int)],
                                    *scene,
                                    *camera,
                                    decay_factor as int,
                                    w as int,
                                    h as int,
                                    x as int,
                                    y as int,
                                );
                            }
                        }
                        proof {
                            lemma_cells_framed(
                                prev,
                                dec,
                                pre,
                                self.cpu_texture@,
                                *scene,
                                *camera,
                                decay_factor as int,
                                w as int,
                                h as int,
                                x as int,
                                y as int,
                            );
                        }
                        y = y + 1;
                    }
                },
                Some(hd) => {
                    let sg = &scene.segments[hd.segment];
                    let dist: i128 = camera.get_perp_dist_to(hd.point) as i128;
                    let th: i64 = tan_half_fx(camera.fov);
                    let thg: i128 = if th < 1 {
                        1
                    } else {
                        th as i128
                    };
                    let proj: i128 = ((w as i128) * (SCALE as i128) * (SCALE as i128)) / (2 * thg);
                    let de: i128 = if dist < 1 {
                        1
                    } else {
                        dist
                    };
                    proof {
                        crate::fixed::lemma_div_in_range(
                            (w as int) * (SCALE as int) * (SCALE as int),
                            2 * (thg as int),
                        );
                        crate::fixed::lemma_div_in_range(proj as int, de as int);
                        vstd::arithmetic::div_mod::lemma_div_pos_is_pos(
                            (w as int) * (SCALE as int) * (SCALE as int),
                            2 * (thg as int),
                        );
                        vstd::arithmetic::div_mod::lemma_div_pos_is_pos(proj as int, de as int);
                    }
                    let wh: i128 = proj / de;
                    let wh: i128 = wh - wh % 2;
                    proof {
                        assert(0 <= wh < 0x1_0000_0000_0000);
                        assert(wh == wall_height_spec(w as int, camera.fov as int, dist as int));
                    }
                    let ch: usize = if wh < h as i128 {
                        wh as usize
                    } else {
                        h
                    };
                    let space: usize = (h - ch) / 2;
                    let len: i64 = seg_len_fx(sg);
                    let is_glitch: bool = match &sg.texture {
                        crate::texture::Texture::Glitch(_) => true,
                        _ => false,
                    };
                    let mut y: usize = 0;
                    while y < h
                        invariant
                            renderer_wf(*self),
                            self.width == w,
                            self.height == h,
                            n == self.cpu_texture.len(),
                            n == w * h,
                            prev.len() == n,
                            dec.len() == n,
                            scene_wf(*scene),
                            camera_wf(*camera),
                            0 <= decay_factor <= SCALE,
                            0 <= x < w,
                            2 <= w <= MAX_DIM,
                            2 <= h <= MAX_DIM,
                            ray == ray_spec(*camera, w as int, x as int),
                            ray_wf(ray),
                            0 <= hd.segment < scene.segments.len(),
                            hd.segment == best_hit_idx(scene.segments@, ray),
                            sg == &scene.segments[hd.segment as int],
                            hd.u == seg_u_fx(scene.segments@[hd.segment as int], ray),
                            0 <= hd.u <= SCALE,
                            hd.point == seg_point_spec(scene.segments@[hd.segment as int], ray),
                            vec2_ok(hd.point),
                            dist == perp_dist_spec(*camera, hd.point),
                            wh == wall_height_spec(w as int, camera.fov as int, dist as int),
                            0 <= wh < 0x1_0000_0000_0000,
                            ch as int == (if wh < h as int {
                                wh as int
                            } else {
                                h as int
                            }),
                            space == (h - ch) / 2,
                            ch <= h,
                            0 <= len <= 0x2_0000_0000,
                            len == seg_len_spec(scene.segments@[hd.segment as int]),
                            is_glitch == (scene.segments@[hd.segment as int].texture is Glitch),
                            forall|j: int|
                                0 <= j < n ==> #[trigger] dec[j] == scale_color_spec(
                                    prev[j],
                                    decay_factor as int,
                                ),
                            0 <= y <= h,
                            forall|a: int, b: int|
                                (0 <= a < x && 0 <= b < h) || (a == x && 0 <= b < y)
                                    ==> #[trigger] cell_ok(
                                    prev,
                                    self.cpu_texture@,
                                    *scene,
                                    *camera,
                                    decay_factor as int,
                                    w as int,
                                    h as int,
                                    a,
                                    b,
                                ),
                            forall|a: int, b: int|
                                0 <= a < w && 0 <= b < h && (a > x || (a == x && b >= y))
                                    ==> #[trigger] self.cpu_texture@[b * w + a] == dec[b * w + a],
                        decreases h - y,
                    {
                        let ghost pre = self.cpu_texture@;
                        if space <= y && y < space + ch {
                            let dr = crate::texture::random_unit();
                            let write_it: bool = is_glitch || !should_drop(dr, camera.noise);
                            if write_it {
                                let whg: i128 = if wh < 1 {
                                    1
                                } else {
                                    wh
                                };
                                let vnum: i128 = ((y as i128) + wh / 2 - (h as i128) / 2) * (
                                SCALE as i128);
                                proof {
                                    crate::fixed::lemma_div_in_range(vnum as int, whg as int);
                                }
                                let v0: i128 = div_fl(vnum, whg);
                                let v: i64 = if v0 < -(crate::texture::UV_BOUND as i128) {
                                    -crate::texture::UV_BOUND
                                } else if v0 > crate::texture::UV_BOUND as i128 {
                                    crate::texture::UV_BOUND
                                } else {
                                    v0 as i64
                                };
                                proof {
                                    assert(segment_wf(scene.segments@[hd.segment as int]));
                                    assert(v as int == wall_v_spec(y as int, wh as int, h as int));
                                }
                                let c = sg.texture.sample(hd.u, v, len);
                                let c2 = attenuate(c, dist);
                                self.put_pixel(x, y, c2);
                                proof {
                                    crate::texture::lemma_row_major_index(
                                        w as int,
                                        h as int,
                                        x as int,
                                        y as int,
                                    );
                                    lemma_cells_after_write(
                                        pre,
                                        self.cpu_texture@,
                                        w
                                        as
                                        int,
                                        h
                                        as
                                        int,
                                        x
                                        as
                                        int,
                                        y
                                        as
                                        int,
                                        gamma_spec(c2),
                                    );
                                    assert(wall_pixel_ok(
                                        scene.segments@[hd.segment as int].texture,
                                        hd.u as int,
                                        v as int,
                                        len as int,
                                        dist as int,
                                        self.cpu_texture@[(y as int) * (w as int) + (x as int)],
                                    ));
                                    assert(wall_span_contains(*scene, *camera, w as int, h as int, x as int, y as int));
                                    lemma_outcome_wall_write(
                                        prev[(y as int) * (w as int) + (x as int)],
                                        self.cpu_texture@[(y as int) * (w as int) + (x as int)],
                                        *scene,
                                        *camera,
                                        decay_factor as int,
                                        w as int,
                                        h as int,
                                        x as int,
                                        y as int,
                                    );
                                }
                            } else {
                                proof {
                                    assert(self.cpu_texture@[(y as int) * (w as int) + (x as int)]
                                        == dec[(y as int) * (w as int) + (x as int)]);
                                    assert(wall_span_contains(*scene, *camera, w as int, h as int, x as int, y as int) ==> !(scene.segments@[best_hit_idx(scene.segments@, ray_spec(*camera, w as int, x as int))].texture is Glitch));
                                    crate::texture::lemma_row_major_index(w as int, h as int, x as int, y as int);
                                assert(dec[(y as int) * (w as int) + (x as int)] == scale_color_spec(prev[(y as int) * (w as int) + (x as int)], decay_factor as int));
                                    lemma_outcome_skip(
                                        prev[(y as int) * (w as int) + (x as int)],
                                        self.cpu_texture@[(y as int) * (w as int) + (x as int)],
                                        *scene,
                                        *camera,
                                        decay_factor as int,
                                        w as int,
                                        h as int,
                                        x as int,
                                        y as int,
                                    );
                                }
                            }
                        } else {
                            let dr = crate::texture::random_unit();
                            if !should_drop(dr, camera.noise) {
                                let c = floor_ceil(y, w, h, &ray, camera);
                                self.put_pixel(x, y, c);
                                proof {
                                    crate::texture::lemma_row_major_index(
                                        w as int,
                                        h as int,
                                        x as int,
                                        y as int,
                                    );
                                    lemma_cells_after_write(
                                        pre,
                                        self.cpu_texture@,
                                        w
                                        as
                                        int,
                                        h
                                        as
                                        int,
                                        x
                                        as
                                        int,
                                        y
                                        as
                                        int,
                                        gamma_spec(c),
                                    );
                                    assert(!wall_span_contains(*scene, *camera, w as int, h as int, x as int, y as int));
                                    lemma_outcome_floor_write(
                                        prev[(y as int) * (w as int) + (x as int)],
                                        self.cpu_texture@[(y as int) * (w as int) + (x as int)],
                                        *scene,
                                        *camera,
                                        decay_factor as int,
                                        w as int,
                                        h as int,
                                        x as int,
                                        y as int,
                                    );
                                }
                            } else {
                                proof {
                                    assert(self.cpu_texture@[(y as int) * (w as int) + (x as int)]
                                        == dec[(y as int) * (w as int) + (x as int)]);
                                    assert(!wall_span_contains(*scene, *camera, w as int, h as int, x as int, y as int));
                                    crate::texture::lemma_row_major_index(w as int, h as int, x as int, y as int);
                                assert(dec[(y as int) * (w as int) + (x as int)] == scale_color_spec(prev[(y as int) * (w as int) + (x as int)], decay_factor as int));
                                    lemma_outcome_skip(
                                        prev[(y as int) * (w as int) + (x as int)],
                                        self.cpu_texture@[(y as int) * (w as int) + (x as int)],
                                        *scene,
                                        *camera,
                                        decay_factor as int,
                                        w as int,
                                        h as int,
                                        x as int,
                                        y as int,
                                    );
                                }
                            }
                        }
                        proof {
                            lemma_cells_framed(
                                prev,
                                dec,
                                pre,
                                self.cpu_texture@,
                                *scene,
                                *camera,
                                decay_factor as int,
                                w as int,
                                h as int,
                                x as int,
                                y as int,
                            );
                        }
                        y = y + 1;
                    }
                },
            }
            x = x + 1;
        }
    }
}

} // verus!
