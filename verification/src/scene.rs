//! Walls, ray/segment intersection, and nearest-hit resolution.
//!
//! Both the segment's line and the ray's line are put in homogeneous form
//! `(A, B, C)` and intersected by the cross product of the two triples. With
//! fixed-point endpoints that cross product is exact integer arithmetic, so
//! the hit is carried as a rational point `(xn/den, yn/den)` and a rational
//! position `un/ud` along the segment, with denominators kept positive.
//! Distances are compared in fixed point after one exact floor division.

use vstd::prelude::*;

use crate::camera::{Ray, ray_wf};
use crate::fixed::{COORD_BOUND, SCALE, Vec2, abs_int, div_fl, lemma_mul_abs_bound, vec2_ok};
use crate::texture::{Texture, texture_wf};

verus! {

/// One wall: a finite line between two endpoints, carrying a texture.
pub struct Segment {
    pub a: Vec2,
    pub b: Vec2,
    pub texture: Texture,
}

/// A well-formed wall: endpoints in the world, not degenerate, texture
/// well-formed.
pub open spec fn segment_wf(s: Segment) -> bool {
    &&& vec2_ok(s.a)
    &&& vec2_ok(s.b)
    &&& !(s.a.x == s.b.x && s.a.y == s.b.y)
    &&& texture_wf(s.texture)
}

/// The sign of an integer: `-1`, `0` or `1`.
pub open spec fn sgn(x: int) -> int {
    if x > 0 {
        1
    } else if x == 0 {
        0
    } else {
        -1
    }
}

/// Horizontal span of the segment.
pub open spec fn dsx(s: Segment) -> int {
    s.b.x - s.a.x
}

/// Vertical span of the segment.
pub open spec fn dsy(s: Segment) -> int {
    s.b.y - s.a.y
}

/// Homogeneous `C` coefficient of the segment's line `(dsy, -dsx, c1)`.
pub open spec fn c1_of(s: Segment) -> int {
    s.a.y * dsx(s) - s.a.x * dsy(s)
}

/// Homogeneous `C` coefficient of the ray's line `(dir.y, -dir.x, c2)`.
pub open spec fn c2_of(r: Ray) -> int {
    r.origin.y * r.dir.x - r.origin.x * r.dir.y
}

/// The `w` component of the cross product of the two line triples: zero
/// exactly when the lines are parallel or coincident.
pub open spec fn w_raw(s: Segment, r: Ray) -> int {
    dsy(s) * (-r.dir.x) - (-dsx(s)) * r.dir.y
}

/// The unnormalized homogeneous `x` of the intersection point.
pub open spec fn xh_raw(s: Segment, r: Ray) -> int {
    (-dsx(s)) * c2_of(r) - c1_of(s) * (-r.dir.x)
}

/// The unnormalized homogeneous `y` of the intersection point.
pub open spec fn yh_raw(s: Segment, r: Ray) -> int {
    c1_of(s) * r.dir.y - dsy(s) * c2_of(r)
}

/// The intersection point's positive denominator.
pub open spec fn isect_den(s: Segment, r: Ray) -> int {
    abs_int(w_raw(s, r))
}

/// The intersection point's `x` numerator, over `isect_den`.
pub open spec fn isect_xn(s: Segment, r: Ray) -> int {
    sgn(w_raw(s, r)) * xh_raw(s, r)
}

/// The intersection point's `y` numerator, over `isect_den`.
pub open spec fn isect_yn(s: Segment, r: Ray) -> int {
    sgn(w_raw(s, r)) * yh_raw(s, r)
}

/// Whether `u` is computed by projecting on the segment's horizontal axis
/// (the longer-magnitude one).
pub open spec fn use_x_axis(s: Segment) -> bool {
    abs_int(dsx(s)) > abs_int(dsy(s))
}

/// The unnormalized numerator of `u`.
pub open spec fn u_num_raw(s: Segment, r: Ray) -> int {
    if use_x_axis(s) {
        isect_xn(s, r) - isect_den(s, r) * s.a.x
    } else {
        isect_yn(s, r) - isect_den(s, r) * s.a.y
    }
}

/// The unnormalized denominator of `u`.
pub open spec fn u_den_raw(s: Segment, r: Ray) -> int {
    if use_x_axis(s) {
        isect_den(s, r) * dsx(s)
    } else {
        isect_den(s, r) * dsy(s)
    }
}

/// The numerator of `u`, once its denominator is made positive.
pub open spec fn isect_un(s: Segment, r: Ray) -> int {
    sgn(u_den_raw(s, r)) * u_num_raw(s, r)
}

/// The positive denominator of `u`.
pub open spec fn isect_ud(s: Segment, r: Ray) -> int {
    sgn(u_den_raw(s, r)) * u_den_raw(s, r)
}

/// Whether the ray's line crosses the segment within its finite span: the
/// lines are not parallel, and `u` lies in `[0, 1]`.
pub open spec fn isect_hits(s: Segment, r: Ray) -> bool {
    w_raw(s, r) != 0 && 0 <= isect_un(s, r) <= isect_ud(s, r)
}

/// An exact ray/segment intersection: the point as `(xn/den, yn/den)` and
/// the position along the segment as `un/ud`, denominators positive.
#[derive(Clone, Copy, Debug, PartialEq, Eq, Structural)]
pub struct SegHit {
    pub xn: i128,
    pub yn: i128,
    pub den: i128,
    pub un: i128,
    pub ud: i128,
}

impl Segment {
    /// Intersect this wall's line with the ray's line in homogeneous
    /// coordinates. Parallel (or coincident) lines yield nothing, as does a
    /// crossing outside the wall's finite span; otherwise the exact rational
    /// hit comes back.
    pub fn intersection(&self, r: &Ray) -> (res: Option<SegHit>)
        requires
            segment_wf(*self),
            ray_wf(*r),
        ensures
            res is Some <==> isect_hits(*self, *r),
            w_raw(*self, *r) == 0 ==> res is None,
            res matches Some(h) ==> {
                &&& h.xn == isect_xn(*self, *r)
                &&& h.yn == isect_yn(*self, *r)
                &&& h.den == isect_den(*self, *r)
                &&& h.un == isect_un(*self, *r)
                &&& h.ud == isect_ud(*self, *r)
                &&& h.den > 0
                &&& 0 <= h.un <= h.ud
                &&& h.ud >= 1
                &&& h.den <= 0x10_0000_0000_0000_0000
                &&& abs_int(h.xn as int) <= 0x200_0000_0000_0000_0000_0000_0000
                &&& abs_int(h.yn as int) <= 0x200_0000_0000_0000_0000_0000_0000
                &&& h.ud <= 0x200_0000_0000_0000_0000_0000_0000
            },
    {
        let ax: i128 = self.a.x as i128;
        let ay: i128 = self.a.y as i128;
        let dx: i128 = (self.b.x - self.a.x) as i128;
        let dy: i128 = (self.b.y - self.a.y) as i128;
        let ox: i128 = r.origin.x as i128;
        let oy: i128 = r.origin.y as i128;
        let rx: i128 = r.dir.x as i128;
        let ry: i128 = r.dir.y as i128;
        proof {
            lemma_mul_abs_bound(ay as int, dx as int, 0x2_0000_0000, 0x2_0000_0000);
            lemma_mul_abs_bound(ax as int, dy as int, 0x2_0000_0000, 0x2_0000_0000);
            lemma_mul_abs_bound(oy as int, rx as int, 0x2_0000_0000, 0x2_0000_0000);
            lemma_mul_abs_bound(ox as int, ry as int, 0x2_0000_0000, 0x2_0000_0000);
            lemma_mul_abs_bound(dy as int, rx as int, 0x2_0000_0000, 0x2_0000_0000);
            lemma_mul_abs_bound(dx as int, ry as int, 0x2_0000_0000, 0x2_0000_0000);
        }
        let c1: i128 = ay * dx - ax * dy;
        let c2: i128 = oy * rx - ox * ry;

        let nrx: i128 = -rx;
        let ndx: i128 = -dx;
        proof {
            lemma_mul_abs_bound(dy as int, nrx as int, 0x2_0000_0000, 0x2_0000_0000);
            lemma_mul_abs_bound(ndx as int, ry as int, 0x2_0000_0000, 0x2_0000_0000);
        }
        let w: i128 = dy * nrx - ndx * ry;
        proof {
            lemma_mul_abs_bound(dy as int, nrx as int, 0x2_0000_0000, 0x2_0000_0000);
            lemma_mul_abs_bound(ndx as int, ry as int, 0x2_0000_0000, 0x2_0000_0000);
            lemma_mul_abs_bound(ndx as int, c2 as int, 0x2_0000_0000, 0x10_0000_0000_0000_0000);
            lemma_mul_abs_bound(c1 as int, nrx as int, 0x10_0000_0000_0000_0000, 0x2_0000_0000);
            lemma_mul_abs_bound(c1 as int, ry as int, 0x10_0000_0000_0000_0000, 0x2_0000_0000);
            lemma_mul_abs_bound(dy as int, c2 as int, 0x2_0000_0000, 0x10_0000_0000_0000_0000);
        }
        let xh: i128 = ndx * c2 - c1 * nrx;
        let yh: i128 = c1 * ry - dy * c2;
        if w == 0 {
            return None;
        }
        let (xn, yn, den): (i128, i128, i128) = if w > 0 {
            (xh, yh, w)
        } else {
            (-xh, -yh, -w)
        };
        let adx: i128 = if dx >= 0 {
            dx
        } else {
            -dx
        };
        let ady: i128 = if dy >= 0 {
            dy
        } else {
            -dy
        };
        proof {
            lemma_mul_abs_bound(den as int, ax as int, 0x8_0000_0000_0000_0000, 0x2_0000_0000);
            lemma_mul_abs_bound(den as int, ay as int, 0x8_0000_0000_0000_0000, 0x2_0000_0000);
            lemma_mul_abs_bound(den as int, dx as int, 0x8_0000_0000_0000_0000, 0x2_0000_0000);
            lemma_mul_abs_bound(den as int, dy as int, 0x8_0000_0000_0000_0000, 0x2_0000_0000);
        }
        let (un0, ud0): (i128, i128) = if adx > ady {
            (xn - den * ax, den * dx)
        } else {
            (yn - den * ay, den * dy)
        };
        proof {
            lemma_ud_positive(*self, *r);
            assert(ud0 == u_den_raw(*self, *r));
        }
        let (un, ud): (i128, i128) = if ud0 > 0 {
            (un0, ud0)
        } else {
            (-un0, -ud0)
        };
        proof {
            assert(un == isect_un(*self, *r) && ud == isect_ud(*self, *r));
        }
        if un < 0 || un > ud {
            return None;
        }
        Some(SegHit { xn, yn, den, un, ud })
    }
}

/// The homogeneous intersection point satisfies both line equations: an
/// algebraic identity of the cross product construction.
#[verifier::rlimit(100)]
proof fn lemma_cross_on_line_one(a1: int, b1: int, c1: int, a2: int, b2: int, c2: int)
    by (nonlinear_arith)
    ensures
        a1 * (b1 * c2 - c1 * b2) + b1 * (c1 * a2 - a1 * c2) + c1 * (a1 * b2 - b1 * a2) == 0,
{
}

#[verifier::rlimit(100)]
proof fn lemma_cross_on_lines(a1: int, b1: int, c1: int, a2: int, b2: int, c2: int)
    ensures
        a1 * (b1 * c2 - c1 * b2) + b1 * (c1 * a2 - a1 * c2) + c1 * (a1 * b2 - b1 * a2) == 0,
        a2 * (b1 * c2 - c1 * b2) + b2 * (c1 * a2 - a1 * c2) + c2 * (a1 * b2 - b1 * a2) == 0,
{
    lemma_cross_on_line_one(a1, b1, c1, a2, b2, c2);
    lemma_cross_on_line_one(a2, b2, c2, a1, b1, c1);
    assert(a2 * (b1 * c2 - c1 * b2) + b2 * (c1 * a2 - a1 * c2) + c2 * (a1 * b2 - b1 * a2) == -(a2
        * (b2 * c1 - c2 * b1) + b2 * (c2 * a1 - a2 * c1) + c2 * (a2 * b1 - b2 * a1)))
        by (nonlinear_arith);
}

/// The raw homogeneous hit lies on the segment's line and on the ray's
/// line, in cleared-denominator offset form.
#[verifier::rlimit(100)]
proof fn lemma_raw_on_lines(s: Segment, r: Ray)
    ensures
        (xh_raw(s, r) - w_raw(s, r) * s.a.x) * dsy(s) == (yh_raw(s, r) - w_raw(s, r) * s.a.y)
            * dsx(s),
        (xh_raw(s, r) - w_raw(s, r) * r.origin.x) * r.dir.y == (yh_raw(s, r) - w_raw(s, r)
            * r.origin.y) * r.dir.x,
{
    lemma_cross_on_lines(
        dsy(s),
        -dsx(s),
        c1_of(s),
        r.dir.y as int,
        -(r.dir.x as int),
        c2_of(r),
    );
    let xh = xh_raw(s, r);
    let yh = yh_raw(s, r);
    let w = w_raw(s, r);
    assert((xh - w * s.a.x) * dsy(s) == (yh - w * s.a.y) * dsx(s)) by (nonlinear_arith)
        requires
            dsy(s) * xh + (-dsx(s)) * yh + c1_of(s) * w == 0,
            c1_of(s) == s.a.y * dsx(s) - s.a.x * dsy(s),
    ;
    assert((xh - w * r.origin.x) * r.dir.y == (yh - w * r.origin.y) * r.dir.x)
        by (nonlinear_arith)
        requires
            r.dir.y * xh + (-r.dir.x) * yh + c2_of(r) * w == 0,
            c2_of(r) == r.origin.y * r.dir.x - r.origin.x * r.dir.y,
    ;
}

/// Where the lines are not parallel: the normalized hit lies on the
/// segment's line and on the ray's line (cleared-denominator form), and the
/// rational `u` recovers the point as `a + u * (b - a)`, componentwise with
/// denominators cleared.
pub proof fn lemma_hit_on_lines(s: Segment, r: Ray)
    requires
        segment_wf(s),
        w_raw(s, r) != 0,
    ensures
        isect_den(s, r) > 0,
        isect_ud(s, r) > 0,
        (isect_xn(s, r) - isect_den(s, r) * s.a.x) * dsy(s) == (isect_yn(s, r) - isect_den(s, r)
            * s.a.y) * dsx(s),
        (isect_xn(s, r) - isect_den(s, r) * r.origin.x) * r.dir.y == (isect_yn(s, r) - isect_den(
            s,
            r,
        ) * r.origin.y) * r.dir.x,
        isect_xn(s, r) * isect_ud(s, r) == (s.a.x * isect_ud(s, r) + isect_un(s, r) * dsx(s))
            * isect_den(s, r),
        isect_yn(s, r) * isect_ud(s, r) == (s.a.y * isect_ud(s, r) + isect_un(s, r) * dsy(s))
            * isect_den(s, r),
{
    lemma_raw_on_lines(s, r);
    lemma_ud_positive(s, r);
    let xh = xh_raw(s, r);
    let yh = yh_raw(s, r);
    let w = w_raw(s, r);
    let xn = isect_xn(s, r);
    let yn = isect_yn(s, r);
    let den = isect_den(s, r);
    let g = sgn(w);
    assert(xn == g * xh && yn == g * yh && den == g * w);
    assert((xn - den * s.a.x) * dsy(s) == (yn - den * s.a.y) * dsx(s)) by (nonlinear_arith)
        requires
            (xh - w * s.a.x) * dsy(s) == (yh - w * s.a.y) * dsx(s),
            xn == g * xh,
            yn == g * yh,
            den == g * w,
            g == 1 || g == -1,
    ;
    assert((xn - den * r.origin.x) * r.dir.y == (yn - den * r.origin.y) * r.dir.x)
        by (nonlinear_arith)
        requires
            (xh - w * r.origin.x) * r.dir.y == (yh - w * r.origin.y) * r.dir.x,
            xn == g * xh,
            yn == g * yh,
            den == g * w,
            g == 1 || g == -1,
    ;
    let un = isect_un(s, r);
    let ud = isect_ud(s, r);
    let su = sgn(u_den_raw(s, r));
    if use_x_axis(s) {
        assert(xn * ud == (s.a.x * ud + un * dsx(s)) * den) by (nonlinear_arith)
            requires
                un == su * (xn - den * s.a.x),
                ud == su * (den * dsx(s)),
                su == 1 || su == -1,
        ;
        assert(yn * ud == (s.a.y * ud + un * dsy(s)) * den) by (nonlinear_arith)
            requires
                (xn - den * s.a.x) * dsy(s) == (yn - den * s.a.y) * dsx(s),
                un == su * (xn - den * s.a.x),
                ud == su * (den * dsx(s)),
                su == 1 || su == -1,
                den > 0,
        ;
    } else {
        assert(yn * ud == (s.a.y * ud + un * dsy(s)) * den) by (nonlinear_arith)
            requires
                un == su * (yn - den * s.a.y),
                ud == su * (den * dsy(s)),
                su == 1 || su == -1,
        ;
        assert(xn * ud == (s.a.x * ud + un * dsx(s)) * den) by (nonlinear_arith)
            requires
                (xn - den * s.a.x) * dsy(s) == (yn - den * s.a.y) * dsx(s),
                un == su * (yn - den * s.a.y),
                ud == su * (den * dsy(s)),
                su == 1 || su == -1,
                den > 0,
    ;
    }
}

/// A ray parallel to the segment's direction never hits: parallelism is
/// exactly the vanishing of the homogeneous `w`, the sole rejection path
/// besides a crossing outside the span.
pub proof fn lemma_parallel_no_hit(s: Segment, r: Ray)
    requires
        dsx(s) * r.dir.y == dsy(s) * r.dir.x,
    ensures
        w_raw(s, r) == 0,
        !isect_hits(s, r),
{
    assert(w_raw(s, r) == 0) by (nonlinear_arith)
        requires
            dsx(s) * r.dir.y == dsy(s) * r.dir.x,
            w_raw(s, r) == dsy(s) * (-r.dir.x) - (-dsx(s)) * r.dir.y,
    ;
}

/// When the lines are not parallel and `0 <= un <= ud`, the `u` denominator
/// is strictly positive: a well-formed segment has a nonzero span on the
/// axis chosen for the projection.
proof fn lemma_ud_positive(s: Segment, r: Ray)
    requires
        segment_wf(s),
        w_raw(s, r) != 0,
    ensures
        u_den_raw(s, r) != 0,
{
    let den = isect_den(s, r);
    assert(den > 0);
    if use_x_axis(s) {
        assert(dsx(s) != 0);
        assert(den * dsx(s) != 0) by (nonlinear_arith)
            requires
                den > 0,
                dsx(s) != 0,
        ;
    } else {
        assert(abs_int(dsx(s)) <= abs_int(dsy(s)));
        assert(dsy(s) != 0);
        assert(den * dsy(s) != 0) by (nonlinear_arith)
            requires
                den > 0,
                dsy(s) != 0,
        ;
    }
}

/// Clamp a fixed-point coordinate back into the world bound.
pub open spec fn clamp_coord(v: int) -> int {
    if v < -COORD_BOUND {
        -COORD_BOUND as int
    } else if v > COORD_BOUND {
        COORD_BOUND as int
    } else {
        v
    }
}

/// Which component the ray-parameter distance is read from: the horizontal
/// one, unless the ray is vertical.
pub open spec fn dist_use_x(r: Ray) -> bool {
    r.dir.x != 0
}

/// The unnormalized numerator of the ray-parameter distance.
pub open spec fn t_num_raw(s: Segment, r: Ray) -> int {
    if dist_use_x(r) {
        isect_xn(s, r) - isect_den(s, r) * r.origin.x
    } else {
        isect_yn(s, r) - isect_den(s, r) * r.origin.y
    }
}

/// The unnormalized denominator of the ray-parameter distance.
pub open spec fn t_den_raw(s: Segment, r: Ray) -> int {
    if dist_use_x(r) {
        isect_den(s, r) * r.dir.x
    } else {
        isect_den(s, r) * r.dir.y
    }
}

/// The distance numerator, once its denominator is made positive.
pub open spec fn t_num(s: Segment, r: Ray) -> int {
    sgn(t_den_raw(s, r)) * t_num_raw(s, r)
}

/// The positive distance denominator.
pub open spec fn t_den(s: Segment, r: Ray) -> int {
    sgn(t_den_raw(s, r)) * t_den_raw(s, r)
}

/// Whether the segment contributes a candidate hit on this ray: the lines
/// cross inside the span, at a strictly positive ray-parameter distance.
pub open spec fn seg_hits(s: Segment, r: Ray) -> bool {
    isect_hits(s, r) && t_num(s, r) > 0
}

/// The fixed-point ray-parameter distance of the segment's hit.
pub open spec fn seg_dist_fx(s: Segment, r: Ray) -> int {
    (t_num(s, r) * SCALE) / t_den(s, r)
}

/// The fixed-point position of the hit along the segment, in `[0, SCALE]`.
pub open spec fn seg_u_fx(s: Segment, r: Ray) -> int {
    (isect_un(s, r) * SCALE) / isect_ud(s, r)
}

/// The hit point rounded onto the fixed-point grid, clamped to the world.
pub open spec fn seg_point_spec(s: Segment, r: Ray) -> Vec2 {
    Vec2 {
        x: clamp_coord(isect_xn(s, r) / isect_den(s, r)) as i64,
        y: clamp_coord(isect_yn(s, r) / isect_den(s, r)) as i64,
    }
}

/// The index of the winning segment among the first `n`, or `-1` when none
/// of them is hit: minimal fixed-point distance, the earliest at a tie.
pub open spec fn best_hit_upto(segs: Seq<Segment>, r: Ray, n: int) -> int
    decreases n,
{
    if n <= 0 {
        -1
    } else {
        let j = best_hit_upto(segs, r, n - 1);
        let i = n - 1;
        if !seg_hits(segs[i], r) {
            j
        } else if j == -1 {
            i
        } else if seg_dist_fx(segs[i], r) < seg_dist_fx(segs[j], r) {
            i
        } else {
            j
        }
    }
}

/// The index of the winning segment of the whole scene, or `-1`.
pub open spec fn best_hit_idx(segs: Seq<Segment>, r: Ray) -> int {
    best_hit_upto(segs, r, segs.len() as int)
}

/// The nearest segment intersection along a ray: fixed-point distance, the
/// world hit point, the position along the wall, and the wall's index.
#[derive(Clone, Copy, Debug, PartialEq, Eq, Structural)]
pub struct HitData {
    pub dist: i128,
    pub point: Vec2,
    pub u: i64,
    pub segment: usize,
}

/// An ordered collection of walls. The order carries no meaning beyond the
/// tie-break: of two walls at the same fixed-point distance, the earlier
/// one wins.
pub struct Scene {
    pub segments: Vec<Segment>,
}

/// A well-formed scene: every wall well-formed.
pub open spec fn scene_wf(sc: Scene) -> bool {
    forall|i: int| 0 <= i < sc.segments.len() ==> segment_wf(#[trigger] sc.segments[i])
}

impl Scene {
    /// Validate and take ownership of a list of walls: rejected exactly when
    /// some wall is degenerate, out of the world, or carries an ill-formed
    /// texture.
    pub fn new(segments: Vec<Segment>) -> (r: Option<Scene>)
        ensures
            r is Some <==> (forall|i: int|
                0 <= i < segments.len() ==> segment_wf(#[trigger] segments[i])),
            r matches Some(sc) ==> sc.segments@ == segments@ && scene_wf(sc),
    {
        let mut k: usize = 0;
        while k < segments.len()
            invariant
                0 <= k <= segments.len(),
                forall|i: int| 0 <= i < k ==> segment_wf(#[trigger] segments[i]),
            decreases segments.len() - k,
        {
            let sg = &segments[k];
            if sg.a.x < -COORD_BOUND || sg.a.x > COORD_BOUND || sg.a.y < -COORD_BOUND || sg.a.y
                > COORD_BOUND || sg.b.x < -COORD_BOUND || sg.b.x > COORD_BOUND || sg.b.y
                < -COORD_BOUND || sg.b.y > COORD_BOUND {
                return None;
            }
            if sg.a.x == sg.b.x && sg.a.y == sg.b.y {
                return None;
            }
            if !texture_wf_exec(&sg.texture) {
                return None;
            }
            k = k + 1;
        }
        Some(Scene { segments })
    }

    /// Resolve the nearest hit along `ray`: among the segments whose span
    /// the ray's line crosses at a positive distance, the one of minimal
    /// fixed-point distance, the earliest at a tie; nothing when no segment
    /// is crossed.
    pub fn sample(&self, ray: &Ray) -> (res: Option<HitData>)
        requires
            scene_wf(*self),
            ray_wf(*ray),
        ensures
            res is None <==> (forall|i: int|
                0 <= i < self.segments.len() ==> !seg_hits(#[trigger] self.segments[i], *ray)),
            res is None <==> best_hit_idx(self.segments@, *ray) == -1,
            res matches Some(h) ==> h.segment == best_hit_idx(self.segments@, *ray),
            res matches Some(h) ==> {
                &&& 0 <= h.segment < self.segments.len()
                &&& seg_hits(self.segments[h.segment as int], *ray)
                &&& h.dist == seg_dist_fx(self.segments[h.segment as int], *ray)
                &&& h.u == seg_u_fx(self.segments[h.segment as int], *ray)
                &&& h.point == seg_point_spec(self.segments[h.segment as int], *ray)
                &&& 0 <= h.u <= SCALE
                &&& 0 <= h.dist
                &&& vec2_ok(h.point)
                &&& forall|i: int|
                    0 <= i < self.segments.len() && seg_hits(#[trigger] self.segments[i], *ray)
                        ==> h.dist <= seg_dist_fx(self.segments[i], *ray)
                &&& forall|i: int|
                    0 <= i < h.segment && seg_hits(#[trigger] self.segments[i], *ray) ==> h.dist
                        < seg_dist_fx(self.segments[i], *ray)
            },
    {
        let mut best: Option<HitData> = None;
        let mut k: usize = 0;
        while k < self.segments.len()
            invariant
                scene_wf(*self),
                ray_wf(*ray),
                0 <= k <= self.segments.len(),
                best is None <==> (forall|i: int|
                    0 <= i < k ==> !seg_hits(#[trigger] self.segments[i], *ray)),
                best is None ==> best_hit_upto(self.segments@, *ray, k as int) == -1,
                best matches Some(h) ==> h.segment == best_hit_upto(self.segments@, *ray, k as int),
                best matches Some(h) ==> {
                    &&& 0 <= h.segment < k
                    &&& seg_hits(self.segments[h.segment as int], *ray)
                    &&& h.dist == seg_dist_fx(self.segments[h.segment as int], *ray)
                    &&& h.u == seg_u_fx(self.segments[h.segment as int], *ray)
                    &&& h.point == seg_point_spec(self.segments[h.segment as int], *ray)
                    &&& 0 <= h.u <= SCALE
                    &&& 0 <= h.dist
                    &&& vec2_ok(h.point)
                    &&& forall|i: int|
                        0 <= i < k && seg_hits(#[trigger] self.segments[i], *ray) ==> h.dist
                            <= seg_dist_fx(self.segments[i], *ray)
                    &&& forall|i: int|
                        0 <= i < h.segment && seg_hits(#[trigger] self.segments[i], *ray)
                            ==> h.dist < seg_dist_fx(self.segments[i], *ray)
                },
            decreases self.segments.len() - k,
        {
            let sg = &self.segments[k];
            match sg.intersection(ray) {
                None => {
                    proof {
                        assert(!seg_hits(self.segments[k as int], *ray));
                    }
                },
                Some(hit) => {
                    proof {
                        lemma_mul_abs_bound(
                            hit.den as int,
                            ray.origin.x as int,
                            0x10_0000_0000_0000_0000,
                            0x2_0000_0000,
                        );
                        lemma_mul_abs_bound(
                            hit.den as int,
                            ray.origin.y as int,
                            0x10_0000_0000_0000_0000,
                            0x2_0000_0000,
                        );
                        lemma_mul_abs_bound(
                            hit.den as int,
                            ray.dir.x as int,
                            0x10_0000_0000_0000_0000,
                            0x2_0000_0000,
                        );
                        lemma_mul_abs_bound(
                            hit.den as int,
                            ray.dir.y as int,
                            0x10_0000_0000_0000_0000,
                            0x2_0000_0000,
                        );
                    }
                    let (tn0, td0): (i128, i128) = if ray.dir.x != 0 {
                        (hit.xn - hit.den * (ray.origin.x as i128), hit.den * (ray.dir.x as i128))
                    } else {
                        (hit.yn - hit.den * (ray.origin.y as i128), hit.den * (ray.dir.y as i128))
                    };
                    proof {
                        lemma_t_den_positive(self.segments[k as int], *ray);
                        assert(td0 == t_den_raw(self.segments[k as int], *ray));
                        assert(tn0 == t_num_raw(self.segments[k as int], *ray));
                        if td0 > 0 {
                            assert(sgn(t_den_raw(self.segments[k as int], *ray)) == 1);
                        } else {
                            assert(sgn(t_den_raw(self.segments[k as int], *ray)) == -1);
                        }
                    }
                    let (tn, td): (i128, i128) = if td0 > 0 {
                        (tn0, td0)
                    } else {
                        (-tn0, -td0)
                    };
                    proof {
                        assert(tn == t_num(self.segments[k as int], *ray) && td == t_den(
                            self.segments[k as int],
                            *ray,
                        ));
                    }
                    if tn > 0 {
                        proof {
                            lemma_t_den_positive(self.segments[k as int], *ray);
                            lemma_mul_abs_bound(
                                tn as int,
                                SCALE as int,
                                0x400_0000_0000_0000_0000_0000_0000,
                                0x2_0000,
                            );
                        }
                        let d: i128 = div_fl(tn * (SCALE as i128), td);
                        proof {
                            vstd::arithmetic::div_mod::lemma_div_pos_is_pos(
                                (tn * (SCALE as i128)) as int,
                                td as int,
                            );
                        }
                        let better: bool = match &best {
                            None => true,
                            Some(h) => d < h.dist,
                        };
                        if better {
                            let u_fx: i64 = u_to_fx(hit.un, hit.ud);
                            let px: i64 = coord_of_ratio(hit.xn, hit.den);
                            let py: i64 = coord_of_ratio(hit.yn, hit.den);
                            best = Some(
                                HitData {
                                    dist: d,
                                    point: Vec2 { x: px, y: py },
                                    u: u_fx,
                                    segment: k,
                                },
                            );
                        }
                    }
                },
            }
            k = k + 1;
        }
        best
    }
}

/// For a candidate hit the distance denominator is strictly positive: the
/// chosen direction component is nonzero once the lines are known to cross.
proof fn lemma_t_den_positive(s: Segment, r: Ray)
    requires
        w_raw(s, r) != 0,
    ensures
        t_den_raw(s, r) != 0,
        t_num(s, r) > 0 ==> t_den(s, r) >= 1,
{
    let den = isect_den(s, r);
    assert(den > 0);
    if dist_use_x(r) {
        assert(den * r.dir.x != 0) by (nonlinear_arith)
            requires
                den > 0,
                r.dir.x != 0,
        ;
    } else {
        if r.dir.y == 0 {
            assert(w_raw(s, r) == dsy(s) * (-r.dir.x) - (-dsx(s)) * r.dir.y);
            assert(w_raw(s, r) == 0) by (nonlinear_arith)
                requires
                    r.dir.x == 0,
                    r.dir.y == 0,
                    w_raw(s, r) == dsy(s) * (-r.dir.x) - (-dsx(s)) * r.dir.y,
            ;
        }
        assert(den * r.dir.y != 0) by (nonlinear_arith)
            requires
                den > 0,
                r.dir.y != 0,
        ;
    }
}

/// Round the rational position along the wall to fixed point, in
/// `[0, SCALE]`.
fn u_to_fx(un: i128, ud: i128) -> (r: i64)
    requires
        0 <= un <= ud,
        ud >= 1,
        un <= 0x400_0000_0000_0000_0000_0000_0000,
    ensures
        r as int == (un * SCALE) / (ud as int),
        0 <= r <= SCALE,
{
    proof {
        lemma_mul_abs_bound(un as int, SCALE as int, 0x400_0000_0000_0000_0000_0000_0000, 0x2_0000);
        assert(un * SCALE <= ud * SCALE) by (nonlinear_arith)
            requires
                un <= ud,
                SCALE == 65536,
        ;
        assert(un * SCALE >= 0) by (nonlinear_arith)
            requires
                un >= 0,
                SCALE == 65536,
        ;
        vstd::arithmetic::div_mod::lemma_div_pos_is_pos((un * (SCALE as i128)) as int, ud as int);
        vstd::arithmetic::div_mod::lemma_div_is_ordered(
            (un * (SCALE as i128)) as int,
            (ud * (SCALE as i128)) as int,
            ud as int,
        );
        vstd::arithmetic::div_mod::lemma_div_multiples_vanish(SCALE as int, ud as int);
    }
    div_fl(un * (SCALE as i128), ud) as i64
}

/// Round a rational coordinate to the fixed-point grid, clamped to the
/// world bound.
fn coord_of_ratio(n: i128, d: i128) -> (r: i64)
    requires
        d >= 1,
        n > i128::MIN,
    ensures
        r as int == clamp_coord((n as int) / (d as int)),
        crate::fixed::coord_ok(r),
{
    let q: i128 = div_fl(n, d);
    if q < -(COORD_BOUND as i128) {
        -COORD_BOUND
    } else if q > COORD_BOUND as i128 {
        COORD_BOUND
    } else {
        q as i64
    }
}

/// Whether a texture is well-formed, decided at run time.
pub fn texture_wf_exec(t: &Texture) -> (r: bool)
    ensures
        r == texture_wf(*t),
    decreases *t,
{
    match t {
        Texture::Solid(c) => 0 <= c.r && c.r <= crate::fixed::COLOR_MAX && 0 <= c.g && c.g
            <= crate::fixed::COLOR_MAX && 0 <= c.b && c.b <= crate::fixed::COLOR_MAX,
        Texture::Stretch(img) => crate::texture::image_wf_exec(img),
        Texture::Repeat(img) => crate::texture::image_wf_exec(img),
        Texture::Glitch(amount) => 0 <= *amount && *amount <= SCALE,
        Texture::Compound(a, b, _) => {
            let wa = texture_wf_exec(a);
            let wb = texture_wf_exec(b);
            wa && wb
        },
    }
}

} // verus!
