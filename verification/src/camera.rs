//! The camera: the fan of view rays for a frame, and the fisheye-corrected
//! perpendicular distance.
//!
//! Angles are binary angle units: `ANGLE_FULL` units make one turn. Sine and
//! cosine are the classic rational quarter-wave approximation evaluated in
//! integers, so a direction is an ordinary fixed-point vector and every ray
//! the camera hands out is pinned down exactly by the contracts.

use vstd::prelude::*;

use crate::fixed::{COORD_BOUND, SCALE, Vec2, abs_int, coord_ok, div_fl, rem_fl, vec2_ok};

verus! {

/// Binary angle units in one full turn.
pub const ANGLE_FULL: i64 = 65536;

/// Binary angle units in half a turn.
pub const ANGLE_HALF: i64 = 32768;

/// Binary angle units in a quarter turn.
pub const ANGLE_QUARTER: i64 = 16384;

/// Largest angle magnitude the trigonometry accepts.
pub const ANGLE_BOUND: i64 = 0x200_0000_0000;

/// An origin point plus a direction vector, used to probe the scene.
#[derive(Clone, Copy, Debug, PartialEq, Eq, Structural)]
pub struct Ray {
    pub origin: Vec2,
    pub dir: Vec2,
}

/// A ray the geometry accepts: both vectors within world bounds.
pub open spec fn ray_wf(r: Ray) -> bool {
    vec2_ok(r.origin) && vec2_ok(r.dir)
}

/// The rational quarter-wave sine on half a turn: for `h` in
/// `[0, ANGLE_HALF]` this approximates `SCALE * sin(pi * h / ANGLE_HALF)`.
pub open spec fn sin_half_spec(h: int) -> int {
    let p = h * (ANGLE_HALF - h);
    (16 * p * SCALE) / (5 * (ANGLE_HALF as int) * (ANGLE_HALF as int) - 4 * p)
}

/// Fixed-point sine of a binary angle, odd-symmetric over the two halves of
/// the turn.
pub open spec fn sin_spec(a: int) -> int {
    let h = a % (ANGLE_FULL as int);
    if h < ANGLE_HALF {
        sin_half_spec(h)
    } else {
        -sin_half_spec(h - ANGLE_HALF)
    }
}

/// Fixed-point cosine: the sine a quarter turn ahead.
pub open spec fn cos_spec(a: int) -> int {
    sin_spec(a + ANGLE_QUARTER)
}

/// The quarter-wave ratio `16 p SCALE / (5 ANGLE_HALF^2 - 4 p)` lies in
/// `[0, SCALE]` for every admissible `p`.
proof fn lemma_quarter_wave_range(p: int)
    requires
        0 <= p <= 0x1000_0000,
    ensures
        5 * (ANGLE_HALF as int) * (ANGLE_HALF as int) - 4 * p > 0,
        0 <= (16 * p * (SCALE as int)) / (5 * (ANGLE_HALF as int) * (ANGLE_HALF as int) - 4 * p)
            <= SCALE,
{
    let den = 5 * (ANGLE_HALF as int) * (ANGLE_HALF as int) - 4 * p;
    let num = 16 * p * (SCALE as int);
    vstd::arithmetic::div_mod::lemma_div_pos_is_pos(num, den);
    vstd::arithmetic::div_mod::lemma_div_is_ordered(num, (SCALE as int) * den, den);
    vstd::arithmetic::div_mod::lemma_div_multiples_vanish(SCALE as int, den);
}

/// The quarter-wave sine evaluated in integers.
fn sin_half(h: i64) -> (r: i64)
    requires
        0 <= h <= ANGLE_HALF,
    ensures
        r == sin_half_spec(h as int),
        0 <= r <= SCALE,
{
    assert(0 <= h * ((ANGLE_HALF as int) - h) <= 0x1000_0000) by (nonlinear_arith)
        requires
            0 <= h <= ANGLE_HALF,
            ANGLE_HALF == 32768,
    ;
    let p: i64 = h * (ANGLE_HALF - h);
    proof {
        lemma_quarter_wave_range(p as int);
    }
    let den: i64 = 5 * ANGLE_HALF * ANGLE_HALF - 4 * p;
    let num: i64 = 16 * p * SCALE;
    num / den
}

/// Fixed-point sine of a binary angle.
pub fn sin_fx(a: i64) -> (r: i64)
    requires
        -ANGLE_BOUND <= a <= ANGLE_BOUND,
    ensures
        r == sin_spec(a as int),
        -SCALE <= r <= SCALE,
{
    let h: i64 = rem_fl(a as i128, ANGLE_FULL as i128) as i64;
    if h < ANGLE_HALF {
        sin_half(h)
    } else {
        -sin_half(h - ANGLE_HALF)
    }
}

/// Fixed-point cosine of a binary angle.
pub fn cos_fx(a: i64) -> (r: i64)
    requires
        -ANGLE_BOUND <= a <= ANGLE_BOUND - ANGLE_QUARTER,
    ensures
        r == cos_spec(a as int),
        -SCALE <= r <= SCALE,
{
    sin_fx(a + ANGLE_QUARTER)
}

/// The sine approximation stays within one fixed-point unit of magnitude for
/// every angle.
pub proof fn lemma_sin_bounds(a: int)
    ensures
        -SCALE <= sin_spec(a) <= SCALE,
{
    vstd::arithmetic::div_mod::lemma_mod_bound(a, ANGLE_FULL as int);
    lemma_sin_half_bounds(a % (ANGLE_FULL as int));
}

/// The quarter-wave sine lies in `[0, SCALE]` on its half-turn domain.
proof fn lemma_sin_half_bounds(h: int)
    requires
        0 <= h <= 2 * ANGLE_HALF,
    ensures
        0 <= sin_half_spec(if h < ANGLE_HALF {
            h
        } else {
            h - (ANGLE_HALF as int)
        }) <= SCALE,
{
    let g = if h < ANGLE_HALF {
        h
    } else {
        h - (ANGLE_HALF as int)
    };
    assert(0 <= g * ((ANGLE_HALF as int) - g) <= 0x1000_0000) by (nonlinear_arith)
        requires
            0 <= g <= ANGLE_HALF,
            ANGLE_HALF == 32768,
    ;
    lemma_quarter_wave_range(g * ((ANGLE_HALF as int) - g));
}

/// The camera pose: position, facing angle, field of view, the shared noise
/// scalar, and the fog distance.
#[derive(Clone, Copy, Debug, PartialEq, Eq, Structural)]
pub struct Camera {
    pub pos: Vec2,
    pub rot: i64,
    pub fov: i64,
    pub noise: i64,
    pub fog_dist: i64,
}

/// A camera pose the renderer accepts: position in the world, rotation
/// bounded, a proper field of view below half a turn, and the noise scalar
/// in the unit interval.
pub open spec fn camera_wf(c: Camera) -> bool {
    &&& vec2_ok(c.pos)
    &&& -0x100_0000_0000 <= c.rot <= 0x100_0000_0000
    &&& 0 < c.fov < ANGLE_HALF
    &&& 0 <= c.noise <= SCALE
    &&& 0 <= c.fog_dist
}

/// The angle of the ray for column `x` of `n`: a linear sweep of the field
/// of view, centered on the facing angle.
pub open spec fn ray_theta(c: Camera, n: int, x: int) -> int {
    c.rot + (c.fov * (2 * x - (n - 1))) / (2 * (n - 1))
}

/// The unit direction of the ray for column `x` of `n`.
pub open spec fn ray_dir_spec(c: Camera, n: int, x: int) -> Vec2 {
    Vec2 { x: cos_spec(ray_theta(c, n, x)) as i64, y: sin_spec(ray_theta(c, n, x)) as i64 }
}

/// The ray for column `x` of `n`: the camera position, probing at the
/// column's angle.
pub open spec fn ray_spec(c: Camera, n: int, x: int) -> Ray {
    Ray { origin: c.pos, dir: ray_dir_spec(c, n, x) }
}

/// The perpendicular (forward-axis) distance from the camera to a point:
/// the magnitude of the projection of the offset onto the facing direction.
pub open spec fn perp_dist_spec(c: Camera, p: Vec2) -> int {
    let fwd = Vec2 { x: cos_spec(c.rot as int) as i64, y: sin_spec(c.rot as int) as i64 };
    abs_int((p.x - c.pos.x) * fwd.x + (p.y - c.pos.y) * fwd.y) / (SCALE as int)
}

impl Camera {
    /// Generate the fan of `n` view rays for one frame: column `x` gets the
    /// unit direction at `rot + fov * (x/(n-1) - 1/2)`.
    pub fn get_rays(&self, n: usize) -> (rays: Vec<Ray>)
        requires
            camera_wf(*self),
            2 <= n <= 65536,
        ensures
            rays.len() == n,
            forall|i: int| 0 <= i < n ==> #[trigger] rays[i] == ray_spec(*self, n as int, i),
    {
        let mut rays: Vec<Ray> = Vec::new();
        let mut x: usize = 0;
        while x < n
            invariant
                camera_wf(*self),
                2 <= n <= 65536,
                0 <= x <= n,
                rays.len() == x,
                forall|i: int| 0 <= i < x ==> #[trigger] rays[i] == ray_spec(*self, n as int, i),
            decreases n - x,
        {
            proof {
                crate::fixed::lemma_mul_abs_bound(
                    self.fov as int,
                    2 * (x as int) - (n as int - 1),
                    ANGLE_HALF as int,
                    0x20000,
                );
            }
            let num: i64 = self.fov * (2 * (x as i64) - (n as i64 - 1));
            let den: i64 = 2 * (n as i64 - 1);
            proof {
                crate::fixed::lemma_div_in_range(num as int, den as int);
            }
            let off_wide: i128 = div_fl(num as i128, den as i128);
            let off: i64 = off_wide as i64;
            let theta: i64 = self.rot + off;
            let dir = Vec2 { x: cos_fx(theta), y: sin_fx(theta) };
            let ray = Ray { origin: self.pos, dir };
            proof {
                assert(ray == ray_spec(*self, n as int, x as int));
            }
            rays.push(ray);
            x = x + 1;
        }
        rays
    }

    /// The distance from the camera to `p` along the camera's forward axis:
    /// what removes the fisheye distortion from a raw hit distance.
    pub fn get_perp_dist_to(&self, p: Vec2) -> (r: i64)
        requires
            camera_wf(*self),
            vec2_ok(p),
        ensures
            r == perp_dist_spec(*self, p),
            0 <= r <= 0x4_0000_0000,
    {
        let fx: i64 = cos_fx(self.rot);
        let fy: i64 = sin_fx(self.rot);
        let dx: i64 = p.x - self.pos.x;
        let dy: i64 = p.y - self.pos.y;
        proof {
            crate::fixed::lemma_mul_abs_bound(dx as int, fx as int, 0x1_0000_0000, SCALE as int);
            crate::fixed::lemma_mul_abs_bound(dy as int, fy as int, 0x1_0000_0000, SCALE as int);
        }
        let d: i128 = (dx as i128) * (fx as i128) + (dy as i128) * (fy as i128);
        let a: i128 = if d >= 0 {
            d
        } else {
            -d
        };
        (a / (SCALE as i128)) as i64
    }
}

/// Fisheye correction is uniform along a wall perpendicular to the forward
/// axis: a point `p = (xn/den, yn/den)` on the wall's line (collinearity
/// stated with denominators cleared) has, denominators cleared, the same
/// forward-axis offset from the camera as the wall endpoint `a`, whenever
/// the wall direction `d` is perpendicular to the forward vector `f`.
pub proof fn lemma_perp_uniform(
    a: Vec2,
    d: Vec2,
    f: Vec2,
    pos: Vec2,
    xn: int,
    yn: int,
    den: int,
)
    requires
        (xn - den * a.x) * d.y == (yn - den * a.y) * d.x,
        d.x * f.x + d.y * f.y == 0,
        !(d.x == 0 && d.y == 0),
    ensures
        (xn - den * pos.x) * f.x + (yn - den * pos.y) * f.y == den * ((a.x - pos.x) * f.x + (a.y
            - pos.y) * f.y),
{
    let ax = a.x as int;
    let ay = a.y as int;
    let dx = d.x as int;
    let dy = d.y as int;
    let fx = f.x as int;
    let fy = f.y as int;
    let px = pos.x as int;
    let py = pos.y as int;
    let ox = xn - den * ax;
    let oy = yn - den * ay;
    assert((ox * fx + oy * fy) * dy == 0) by (nonlinear_arith)
        requires
            ox * dy == oy * dx,
            dx * fx + dy * fy == 0,
    ;
    assert((ox * fx + oy * fy) * dx == 0) by (nonlinear_arith)
        requires
            ox * dy == oy * dx,
            dx * fx + dy * fy == 0,
    ;
    if dx != 0 {
        assert(ox * fx + oy * fy == 0) by (nonlinear_arith)
            requires
                (ox * fx + oy * fy) * dx == 0,
                dx != 0,
        ;
    } else {
        assert(ox * fx + oy * fy == 0) by (nonlinear_arith)
            requires
                (ox * fx + oy * fy) * dy == 0,
                dy != 0,
        ;
    }
    assert((xn - den * px) * fx + (yn - den * py) * fy - den * ((ax - px) * fx + (ay - py) * fy)
        == ox * fx + oy * fy) by (nonlinear_arith)
        requires
            ox == xn - den * ax,
            oy == yn - den * ay,
    ;
}

} // verus!
