//! The texture engine: solid, stretched, repeating, glitch and compound
//! textures, sampled in linear-light fixed-point color.
//!
//! Sampling a texture that holds a `Glitch` leaf draws fresh randomness, so
//! its result is specified relationally: `sample_rel` says which colors a
//! sample may return, quantifying over the random draw, and is exact for
//! every deterministic texture kind.

use vstd::prelude::*;

use crate::fixed::{COLOR_MAX, SCALE, abs_int, div_fl, rem_fl};

verus! {

/// A linear-light color triple in fixed-point units (`SCALE` is 1.0).
#[derive(Clone, Copy, Debug, PartialEq, Eq, Structural)]
pub struct Color {
    pub r: i64,
    pub g: i64,
    pub b: i64,
}

/// A color component the engine accepts: non-negative and below the
/// saturation cap.
pub open spec fn comp_ok(c: i64) -> bool {
    0 <= c <= COLOR_MAX
}

/// A well-formed color: every component in range.
pub open spec fn color_wf(c: Color) -> bool {
    comp_ok(c.r) && comp_ok(c.g) && comp_ok(c.b)
}

/// A color whose components do not exceed 1.0, as image texels and solid
/// fills produce.
pub open spec fn color_unit(c: Color) -> bool {
    color_wf(c) && c.r <= SCALE && c.g <= SCALE && c.b <= SCALE
}

impl Color {
    /// Build a color from its three components.
    pub fn new(r: i64, g: i64, b: i64) -> (c: Color)
        ensures
            c.r == r && c.g == g && c.b == b,
    {
        Color { r, g, b }
    }

    /// The same value in all three components.
    pub fn splat(v: i64) -> (c: Color)
        ensures
            c.r == v && c.g == v && c.b == v,
    {
        Color { r: v, g: v, b: v }
    }

    /// Black.
    pub fn zero() -> (c: Color)
        ensures
            c == (Color { r: 0, g: 0, b: 0 }),
    {
        Color { r: 0, g: 0, b: 0 }
    }
}

/// Saturate a component at the cap.
pub open spec fn sat(v: int) -> int {
    if v > COLOR_MAX {
        COLOR_MAX as int
    } else {
        v
    }
}

/// One component of a multiplicative blend: fixed-point product, saturated.
pub open spec fn mul_comp(x: int, y: int) -> int {
    sat((x * y) / (SCALE as int))
}

/// How two colors combine under each blend mode, componentwise.
pub open spec fn blend_spec(m: BlendMode, a: Color, b: Color) -> Color {
    match m {
        BlendMode::Multiply => Color {
            r: mul_comp(a.r as int, b.r as int) as i64,
            g: mul_comp(a.g as int, b.g as int) as i64,
            b: mul_comp(a.b as int, b.b as int) as i64,
        },
        BlendMode::Add => Color {
            r: sat(a.r + b.r) as i64,
            g: sat(a.g + b.g) as i64,
            b: sat(a.b + b.b) as i64,
        },
        BlendMode::Mean => Color {
            r: ((a.r + b.r) / 2) as i64,
            g: ((a.g + b.g) / 2) as i64,
            b: ((a.b + b.b) / 2) as i64,
        },
    }
}

/// How two sampled layers of a compound texture are combined.
#[derive(Clone, Copy, Debug, PartialEq, Eq, Structural)]
pub enum BlendMode {
    Multiply,
    Add,
    Mean,
}

impl Default for BlendMode {
    /// The mean of the two layers is the default combination.
    fn default() -> (m: BlendMode)
        ensures
            m == BlendMode::Mean,
    {
        BlendMode::Mean
    }
}

impl BlendMode {
    /// Combine two colors under this mode: componentwise product (saturated),
    /// sum (saturated), or arithmetic mean.
    pub fn blend(&self, a: Color, b: Color) -> (c: Color)
        requires
            color_wf(a),
            color_wf(b),
        ensures
            c == blend_spec(*self, a, b),
            color_wf(c),
    {
        match self {
            BlendMode::Multiply => Color {
                r: mul_sat(a.r, b.r),
                g: mul_sat(a.g, b.g),
                b: mul_sat(a.b, b.b),
            },
            BlendMode::Add => Color {
                r: add_sat(a.r, b.r),
                g: add_sat(a.g, b.g),
                b: add_sat(a.b, b.b),
            },
            BlendMode::Mean => Color { r: (a.r + b.r) / 2, g: (a.g + b.g) / 2, b: (a.b + b.b) / 2 },
        }
    }
}

/// One component of the multiplicative blend.
fn mul_sat(x: i64, y: i64) -> (r: i64)
    requires
        comp_ok(x),
        comp_ok(y),
    ensures
        r == mul_comp(x as int, y as int),
        comp_ok(r),
{
    proof {
        crate::fixed::lemma_mul_abs_bound(x as int, y as int, COLOR_MAX as int, COLOR_MAX as int);
        crate::fixed::lemma_div_in_range((x as int) * (y as int), SCALE as int);
    }
    let wide: i128 = div_fl((x as i128) * (y as i128), SCALE as i128);
    if wide > COLOR_MAX as i128 {
        COLOR_MAX
    } else {
        wide as i64
    }
}

/// One component of the additive blend.
fn add_sat(x: i64, y: i64) -> (r: i64)
    requires
        comp_ok(x),
        comp_ok(y),
    ensures
        r == sat(x + y),
        comp_ok(r),
{
    if x > COLOR_MAX - y {
        COLOR_MAX
    } else {
        x + y
    }
}

/// Largest accepted image side, in texels.
pub const MAX_IMAGE_DIM: usize = 16384;

/// A decoded rectangular pixel array, row-major.
#[derive(Clone, Debug)]
pub struct Image {
    pub width: usize,
    pub height: usize,
    pub pixels: Vec<Color>,
}

/// A well-formed image: non-degenerate, bounded sides, a texel for every
/// cell, and every texel within the unit range.
pub open spec fn image_wf(img: Image) -> bool {
    &&& 1 <= img.width <= MAX_IMAGE_DIM
    &&& 1 <= img.height <= MAX_IMAGE_DIM
    &&& img.pixels.len() == img.width * img.height
    &&& forall|k: int| 0 <= k < img.pixels.len() ==> color_unit(#[trigger] img.pixels[k])
}

/// The texel of `img` at column `x`, row `y` (spec view).
pub open spec fn texel(img: Image, x: int, y: int) -> Color {
    img.pixels[y * img.width + x]
}

impl Image {
    /// Validate and build an image from row-major pixels; rejects degenerate
    /// or oversized dimensions, a mismatched pixel count, and out-of-range
    /// texels, exactly when one of those holds.
    pub fn new(width: usize, height: usize, pixels: Vec<Color>) -> (r: Option<Image>)
        ensures
            r is Some <==> {
                &&& 1 <= width <= MAX_IMAGE_DIM
                &&& 1 <= height <= MAX_IMAGE_DIM
                &&& pixels.len() == width * height
                &&& forall|k: int| 0 <= k < pixels.len() ==> color_unit(#[trigger] pixels[k])
            },
            r matches Some(img) ==> {
                &&& image_wf(img)
                &&& img.width == width
                &&& img.height == height
                &&& img.pixels@ == pixels@
            },
    {
        if width < 1 || width > MAX_IMAGE_DIM || height < 1 || height > MAX_IMAGE_DIM {
            return None;
        }
        proof {
            crate::fixed::lemma_mul_abs_bound(
                width as int,
                height as int,
                MAX_IMAGE_DIM as int,
                MAX_IMAGE_DIM as int,
            );
        }
        if pixels.len() != width * height {
            return None;
        }
        let mut k: usize = 0;
        while k < pixels.len()
            invariant
                0 <= k <= pixels.len(),
                forall|j: int| 0 <= j < k ==> color_unit(#[trigger] pixels[j]),
            decreases pixels.len() - k,
        {
            let c = pixels[k];
            if c.r < 0 || c.r > SCALE || c.g < 0 || c.g > SCALE || c.b < 0 || c.b > SCALE {
                return None;
            }
            k = k + 1;
        }
        Some(Image { width, height, pixels })
    }

    /// Width in texels.
    pub fn width(&self) -> (w: usize)
        ensures
            w == self.width,
    {
        self.width
    }

    /// Height in texels.
    pub fn height(&self) -> (h: usize)
        ensures
            h == self.height,
    {
        self.height
    }

    /// The texel at `(x, y)`.
    pub fn get_pixel(&self, x: usize, y: usize) -> (c: Color)
        requires
            image_wf(*self),
            x < self.width,
            y < self.height,
        ensures
            c == texel(*self, x as int, y as int),
    {
        proof {
            crate::fixed::lemma_mul_abs_bound(
                y as int,
                self.width as int,
                MAX_IMAGE_DIM as int,
                MAX_IMAGE_DIM as int,
            );
            lemma_row_major_index(self.width as int, self.height as int, x as int, y as int);
        }
        self.pixels[y * self.width + x]
    }
}

/// Whether an image is well-formed, decided at run time.
pub fn image_wf_exec(img: &Image) -> (r: bool)
    ensures
        r == image_wf(*img),
{
    if img.width < 1 || img.width > MAX_IMAGE_DIM || img.height < 1 || img.height > MAX_IMAGE_DIM {
        return false;
    }
    proof {
        crate::fixed::lemma_mul_abs_bound(
            img.width as int,
            img.height as int,
            MAX_IMAGE_DIM as int,
            MAX_IMAGE_DIM as int,
        );
    }
    if img.pixels.len() != img.width * img.height {
        return false;
    }
    let mut k: usize = 0;
    while k < img.pixels.len()
        invariant
            0 <= k <= img.pixels.len(),
            forall|j: int| 0 <= j < k ==> color_unit(#[trigger] img.pixels[j]),
        decreases img.pixels.len() - k,
    {
        let c = img.pixels[k];
        if c.r < 0 || c.r > SCALE || c.g < 0 || c.g > SCALE || c.b < 0 || c.b > SCALE {
            return false;
        }
        k = k + 1;
    }
    true
}

/// A cell `(x, y)` of a `w` by `h` grid has its row-major index inside the
/// grid's pixel count.
pub proof fn lemma_row_major_index(w: int, h: int, x: int, y: int) by (nonlinear_arith)
    requires
        1 <= w,
        1 <= h,
        0 <= x < w,
        0 <= y < h,
    ensures
        0 <= y * w + x < w * h,
{
}

/// Bound on the magnitudes `Texture::sample` accepts for the vertical
/// coordinate and the wall length.
pub const UV_BOUND: i64 = 0x1_0000_0000_0000;

/// What a wall is painted with.
pub enum Texture {
    /// One constant color everywhere.
    Solid(Color),
    /// One full copy of the image over the wall, whatever its length.
    Stretch(Image),
    /// The image tiled in proportion to the wall's physical length.
    Repeat(Image),
    /// Random grayscale flecks of the given intensity (`SCALE` is full).
    Glitch(i64),
    /// Two textures sampled at the same spot and blended.
    Compound(Box<Texture>, Box<Texture>, BlendMode),
}

/// A well-formed texture: images well-formed, glitch intensity within the
/// unit range, and both layers of a compound well-formed.
pub open spec fn texture_wf(t: Texture) -> bool
    decreases t,
{
    match t {
        Texture::Solid(c) => color_wf(c),
        Texture::Stretch(img) => image_wf(img),
        Texture::Repeat(img) => image_wf(img),
        Texture::Glitch(amount) => 0 <= amount <= SCALE,
        Texture::Compound(a, b, _) => texture_wf(*a) && texture_wf(*b),
    }
}

/// Clamp a unit coordinate into `[0, SCALE)` before indexing an image.
pub open spec fn clamp_unit(x: int) -> int {
    if x < 0 {
        0
    } else if x > SCALE - 1 {
        (SCALE - 1) as int
    } else {
        x
    }
}

/// Wrap a coordinate into `[0, SCALE)`, tiling.
pub open spec fn wrap_unit(x: int) -> int {
    x % (SCALE as int)
}

/// Map a coordinate in `[0, SCALE)` onto a texel index in `[0, dim)`.
pub open spec fn texel_index(dim: int, c: int) -> int {
    (c * dim) / (SCALE as int)
}

/// The texel a stretched image yields at `(u, v)`: coordinates clamped, then
/// mapped over the full image extent.
pub open spec fn stretch_texel(img: Image, u: int, v: int) -> Color {
    texel(
        img,
        texel_index(img.width as int, clamp_unit(u)),
        texel_index(img.height as int, clamp_unit(v)),
    )
}

/// The texel a repeating image yields at `(u, v)` on a wall of length `len`:
/// the horizontal coordinate is scaled by the wall's physical length, then
/// both coordinates wrap into the unit interval.
pub open spec fn repeat_texel(img: Image, u: int, v: int, len: int) -> Color {
    texel(
        img,
        texel_index(img.width as int, wrap_unit((u * len) / (SCALE as int))),
        texel_index(img.height as int, wrap_unit(v)),
    )
}

/// The grayscale a glitch of intensity `amount` yields from the random draw
/// `d`: the cube of the unit draw, scaled by the intensity — the cubic bias
/// concentrates the flecks near black.
pub open spec fn glitch_gray(amount: int, d: int) -> int {
    (((d * d / (SCALE as int)) * d / (SCALE as int)) * amount) / (SCALE as int)
}

/// The color a glitch of intensity `amount` yields from the unit random
/// draw `d`: one grayscale level in all three components.
pub open spec fn glitch_outcome(amount: int, d: int, res: Color) -> bool {
    0 <= d < SCALE && res == (Color {
        r: glitch_gray(amount, d) as i64,
        g: glitch_gray(amount, d) as i64,
        b: glitch_gray(amount, d) as i64,
    })
}

/// Which colors sampling `t` at `(u, v)` on a wall of length `len` may
/// return. Deterministic kinds pin the color down exactly; a glitch leaf
/// ranges over its random draw.
pub open spec fn sample_rel(t: Texture, u: int, v: int, len: int, res: Color) -> bool
    decreases t,
{
    match t {
        Texture::Solid(c) => res == c,
        Texture::Stretch(img) => res == stretch_texel(img, u, v),
        Texture::Repeat(img) => res == repeat_texel(img, u, v, len),
        Texture::Glitch(amount) => exists|d: int| #[trigger] glitch_outcome(amount as int, d, res),
        Texture::Compound(a, b, m) => exists|ra: Color, rb: Color|
            sample_rel(*a, u, v, len, ra) && sample_rel(*b, u, v, len, rb) && res
                == #[trigger] blend_spec(m, ra, rb),
    }
}

/// Relies on rand::random_range: the result lies in the half-open range it
/// is given, here one fixed-point unit interval.
#[verifier::external_body]
pub(crate) fn random_unit() -> (r: i64)
    ensures
        0 <= r < SCALE,
{
    rand::random_range(0..SCALE)
}

/// The grayscale level of a glitch fleck, from the intensity and a unit
/// random draw.
pub fn glitch_level(amount: i64, d: i64) -> (g: i64)
    requires
        0 <= amount <= SCALE,
        0 <= d < SCALE,
    ensures
        g == glitch_gray(amount as int, d as int),
        0 <= g <= SCALE,
{
    assert(0 <= d * d && d * d / (SCALE as int) < SCALE) by (nonlinear_arith)
        requires
            0 <= d < SCALE,
            SCALE == 65536,
    ;
    let dd: i64 = (d * d) / SCALE;
    assert(0 <= dd * d && dd * d / (SCALE as int) < SCALE) by (nonlinear_arith)
        requires
            0 <= dd < SCALE,
            0 <= d < SCALE,
            SCALE == 65536,
    ;
    let ddd: i64 = (dd * d) / SCALE;
    assert(0 <= ddd * amount && ddd * amount / (SCALE as int) <= SCALE) by (nonlinear_arith)
        requires
            0 <= ddd < SCALE,
            0 <= amount <= SCALE,
            SCALE == 65536,
    ;
    let g: i64 = (ddd * amount) / SCALE;
    g
}

impl Texture {
    /// Sample a color at surface coordinate `(u, v)` on a wall of physical
    /// length `len`. Exactly the colors `sample_rel` admits can come back;
    /// glitch leaves draw fresh randomness on every call.
    #[verifier::rlimit(50)]
    pub fn sample(&self, u: i64, v: i64, len: i64) -> (res: Color)
        requires
            texture_wf(*self),
            -UV_BOUND <= u <= UV_BOUND,
            -UV_BOUND <= v <= UV_BOUND,
            0 <= len <= UV_BOUND,
        ensures
            sample_rel(*self, u as int, v as int, len as int, res),
            color_wf(res),
        decreases *self,
    {
        match self {
            Texture::Solid(c) => {
                let res = *c;
                proof {
                    assert(sample_rel(*self, u as int, v as int, len as int, res));
                    assert(color_wf(res));
                }
                res
            },
            Texture::Stretch(img) => {
                let ui = clamp_unit_exec(u);
                let vi = clamp_unit_exec(v);
                let x = texel_index_exec(img.width, ui);
                let y = texel_index_exec(img.height, vi);
                let res = img.get_pixel(x, y);
                proof {
                    lemma_row_major_index(
                        img.width as int,
                        img.height as int,
                        x as int,
                        y as int,
                    );
                    assert(color_unit(img.pixels[(y as int) * (img.width as int) + (x as int)]));
                    assert(sample_rel(*self, u as int, v as int, len as int, res));
                    assert(color_wf(res));
                }
                res
            },
            Texture::Repeat(img) => {
                proof {
                    crate::fixed::lemma_mul_abs_bound(
                        u as int,
                        len as int,
                        UV_BOUND as int,
                        UV_BOUND as int,
                    );
                    crate::fixed::lemma_div_in_range((u as int) * (len as int), SCALE as int);
                }
                let scaled_wide: i128 = div_fl((u as i128) * (len as i128), SCALE as i128);
                let xi: i64 = rem_fl(scaled_wide, SCALE as i128) as i64;
                let vi: i64 = rem_fl(v as i128, SCALE as i128) as i64;
                let x = texel_index_exec(img.width, xi);
                let y = texel_index_exec(img.height, vi);
                let res = img.get_pixel(x, y);
                proof {
                    lemma_row_major_index(
                        img.width as int,
                        img.height as int,
                        x as int,
                        y as int,
                    );
                    assert(color_unit(img.pixels[(y as int) * (img.width as int) + (x as int)]));
                    assert(sample_rel(*self, u as int, v as int, len as int, res));
                    assert(color_wf(res));
                }
                res
            },
            Texture::Glitch(amount) => {
                let d = random_unit();
                let g = glitch_level(*amount, d);
                let res = Color { r: g, g: g, b: g };
                proof {
                    assert(glitch_outcome(*amount as int, d as int, res));
                    assert(sample_rel(*self, u as int, v as int, len as int, res));
                }
                res
            },
            Texture::Compound(a, b, m) => {
                let ra = a.sample(u, v, len);
                let rb = b.sample(u, v, len);
                let res = m.blend(ra, rb);
                proof {
                    assert(sample_rel(*self, u as int, v as int, len as int, res));
                }
                res
            },
        }
    }

    /// Whether a glitch leaf occurs anywhere in this texture tree.
    pub fn contains_glitch(&self) -> (r: bool)
        ensures
            r == contains_glitch_spec(*self),
        decreases *self,
    {
        match self {
            Texture::Glitch(_) => true,
            Texture::Compound(a, b, _) => a.contains_glitch() || b.contains_glitch(),
            _ => false,
        }
    }
}

/// Whether a glitch leaf occurs anywhere in the texture tree.
pub open spec fn contains_glitch_spec(t: Texture) -> bool
    decreases t,
{
    match t {
        Texture::Glitch(_) => true,
        Texture::Compound(a, b, _) => contains_glitch_spec(*a) || contains_glitch_spec(*b),
        _ => false,
    }
}

/// A compound of two solid layers samples, anywhere and on any wall, to
/// exactly the blend of the two constant colors: the product, the sum or the
/// mean, componentwise, by the mode.
pub proof fn lemma_compound_of_solids(
    a: Box<Texture>,
    b: Box<Texture>,
    m: BlendMode,
    c1: Color,
    c2: Color,
    u: int,
    v: int,
    len: int,
    res: Color,
)
    requires
        *a == Texture::Solid(c1),
        *b == Texture::Solid(c2),
        sample_rel(Texture::Compound(a, b, m), u, v, len, res),
    ensures
        res == blend_spec(m, c1, c2),
{
    let t = Texture::Compound(a, b, m);
    assert(exists|ra: Color, rb: Color|
        sample_rel(*a, u, v, len, ra) && sample_rel(*b, u, v, len, rb) && res
            == #[trigger] blend_spec(m, ra, rb));
    let (ra, rb) = choose|ra: Color, rb: Color|
        sample_rel(*a, u, v, len, ra) && sample_rel(*b, u, v, len, rb) && res
            == #[trigger] blend_spec(m, ra, rb);
    assert(ra == c1);
    assert(rb == c2);
}

/// Below the representation's saturation cap the additive blend is the
/// exact unclamped componentwise sum.
pub proof fn lemma_add_blend_exact(a: Color, b: Color)
    requires
        color_wf(a),
        color_wf(b),
        a.r + b.r <= COLOR_MAX,
        a.g + b.g <= COLOR_MAX,
        a.b + b.b <= COLOR_MAX,
    ensures
        blend_spec(BlendMode::Add, a, b) == (Color {
            r: (a.r + b.r) as i64,
            g: (a.g + b.g) as i64,
            b: (a.b + b.b) as i64,
        }),
{
}

/// Below the representation's saturation cap the multiplicative blend is
/// the exact componentwise fixed-point product.
pub proof fn lemma_mul_blend_exact(a: Color, b: Color)
    requires
        color_wf(a),
        color_wf(b),
        (a.r * b.r) / (SCALE as int) <= COLOR_MAX,
        (a.g * b.g) / (SCALE as int) <= COLOR_MAX,
        (a.b * b.b) / (SCALE as int) <= COLOR_MAX,
    ensures
        blend_spec(BlendMode::Multiply, a, b) == (Color {
            r: ((a.r * b.r) / (SCALE as int)) as i64,
            g: ((a.g * b.g) / (SCALE as int)) as i64,
            b: ((a.b * b.b) / (SCALE as int)) as i64,
        }),
{
}

/// Sampling a repeating texture at `u == 0` and at `u == SCALE` (one wall
/// length along), on a wall of a whole number of world units, lands on the
/// same texel: the tiling wraps at integer boundaries.
pub proof fn lemma_repeat_tiles(
    img: Image,
    v: int,
    len: int,
    r0: Color,
    r1: Color,
)
    requires
        image_wf(img),
        0 <= len,
        len % (SCALE as int) == 0,
        sample_rel(Texture::Repeat(img), 0, v, len, r0),
        sample_rel(Texture::Repeat(img), SCALE as int, v, len, r1),
    ensures
        r0 == r1,
{
    assert((0 * len) / (SCALE as int) == 0);
    assert(((SCALE as int) * len) / (SCALE as int) == len) by {
        vstd::arithmetic::div_mod::lemma_div_multiples_vanish(
            len,
            SCALE as int,
        );
    }
    assert(wrap_unit(0) == 0) by {
        vstd::arithmetic::div_mod::lemma_small_mod(0, SCALE as nat);
    }
    assert(wrap_unit(len) == 0) by {
        vstd::arithmetic::div_mod::lemma_mod_multiples_basic(
            len / (SCALE as int),
            SCALE as int,
        );
        vstd::arithmetic::div_mod::lemma_fundamental_div_mod_converse(
            len,
            SCALE as int,
            len / (SCALE as int),
            0,
        );
    }
}

/// Clamp a fixed-point coordinate into `[0, SCALE)`.
fn clamp_unit_exec(x: i64) -> (r: i64)
    ensures
        r == clamp_unit(x as int),
        0 <= r < SCALE,
{
    if x < 0 {
        0
    } else if x > SCALE - 1 {
        SCALE - 1
    } else {
        x
    }
}

/// Map a clamped coordinate onto a texel index, strictly inside the image.
fn texel_index_exec(dim: usize, c: i64) -> (r: usize)
    requires
        1 <= dim <= MAX_IMAGE_DIM,
        0 <= c < SCALE,
    ensures
        r == texel_index(dim as int, c as int),
        r < dim,
{
    assert(0 <= c * dim && (c * dim) / (SCALE as int) < dim) by (nonlinear_arith)
        requires
            0 <= c < SCALE,
            1 <= dim <= MAX_IMAGE_DIM,
            SCALE == 65536,
            MAX_IMAGE_DIM == 16384,
    ;
    let wide: i64 = (c * (dim as i64)) / SCALE;
    wide as usize
}

} // verus!
