//! Fixed-point scalars and 2D integer vectors.
//!
//! A scalar holds `SCALE` units to one; a world coordinate is a scalar whose
//! magnitude stays below `COORD_BOUND`. All derived quantities are computed
//! in `i128`, wide enough that none of the products taken anywhere in the
//! crate can overflow.

use vstd::prelude::*;

verus! {

/// Fixed-point unit: the representation of 1.0.
pub const SCALE: i64 = 65536;

/// Bound on the magnitude of a world coordinate (32768 world units).
pub const COORD_BOUND: i64 = 0x8000_0000;

/// Saturation cap for a color component (about 16 million in units of one).
pub const COLOR_MAX: i64 = 0x100_0000_0000;

/// A 2D point or direction in fixed-point world coordinates.
#[derive(Clone, Copy, Debug, PartialEq, Eq, Structural)]
pub struct Vec2 {
    pub x: i64,
    pub y: i64,
}

/// A coordinate that the geometry accepts: strictly inside the world bound.
pub open spec fn coord_ok(v: i64) -> bool {
    -COORD_BOUND <= v <= COORD_BOUND
}

/// A vector whose components are both world coordinates.
pub open spec fn vec2_ok(v: Vec2) -> bool {
    coord_ok(v.x) && coord_ok(v.y)
}

/// Cross product (signed area) of two vectors.
pub open spec fn cross_spec(a: Vec2, b: Vec2) -> int {
    a.x * b.y - a.y * b.x
}

/// Dot product of two vectors.
pub open spec fn dot_spec(a: Vec2, b: Vec2) -> int {
    a.x * b.x + a.y * b.y
}

impl Vec2 {
    /// Build a vector from its two coordinates.
    pub fn new(x: i64, y: i64) -> (r: Vec2)
        ensures
            r.x == x,
            r.y == y,
    {
        Vec2 { x, y }
    }

    /// Componentwise difference, widened so it cannot overflow.
    pub fn minus(self, o: Vec2) -> (r: Vec2)
        requires
            vec2_ok(self),
            vec2_ok(o),
        ensures
            r.x == self.x - o.x,
            r.y == self.y - o.y,
    {
        Vec2 { x: self.x - o.x, y: self.y - o.y }
    }

    /// Dot product, computed exactly in 128 bits.
    pub fn dot(self, o: Vec2) -> (r: i128)
        requires
            vec2_ok(self),
            vec2_ok(o),
        ensures
            r == dot_spec(self, o),
    {
        proof {
            lemma_mul_abs_bound(self.x as int, o.x as int, COORD_BOUND as int, COORD_BOUND as int);
            lemma_mul_abs_bound(self.y as int, o.y as int, COORD_BOUND as int, COORD_BOUND as int);
        }
        (self.x as i128) * (o.x as i128) + (self.y as i128) * (o.y as i128)
    }

    /// Cross product, computed exactly in 128 bits.
    pub fn cross(self, o: Vec2) -> (r: i128)
        requires
            vec2_ok(self),
            vec2_ok(o),
        ensures
            r == cross_spec(self, o),
    {
        proof {
            lemma_mul_abs_bound(self.x as int, o.y as int, COORD_BOUND as int, COORD_BOUND as int);
            lemma_mul_abs_bound(self.y as int, o.x as int, COORD_BOUND as int, COORD_BOUND as int);
        }
        (self.x as i128) * (o.y as i128) - (self.y as i128) * (o.x as i128)
    }
}

/// Floor division of a 128-bit value by a positive divisor.
pub fn div_fl(n: i128, d: i128) -> (q: i128)
    requires
        d >= 1,
        n > i128::MIN,
    ensures
        q == n as int / d as int,
{
    proof {
        lemma_div_in_range(n as int, d as int);
    }
    n.checked_div_euclid(d).unwrap()
}

/// Euclidean remainder of a 128-bit value by a positive divisor: the result
/// lies in `[0, d)` whatever the sign of `n`.
pub fn rem_fl(n: i128, d: i128) -> (r: i128)
    requires
        d >= 1,
        n > i128::MIN,
    ensures
        r == n as int % d as int,
        0 <= r < d,
{
    proof {
        vstd::arithmetic::div_mod::lemma_mod_bound(n as int, d as int);
    }
    n.checked_rem_euclid(d).unwrap()
}

/// `|a| <= ma` and `|b| <= mb` bound the product: `|a * b| <= ma * mb`.
pub proof fn lemma_mul_abs_bound(a: int, b: int, ma: int, mb: int) by (nonlinear_arith)
    requires
        abs_int(a) <= ma,
        abs_int(b) <= mb,
    ensures
        abs_int(a * b) <= ma * mb,
{
}

/// The quotient of a euclidean division by a positive divisor lies between
/// `-|n| - 1` and `|n|`, so it stays representable whenever `n` is.
pub proof fn lemma_div_in_range(n: int, d: int)
    requires
        d >= 1,
    ensures
        -abs_int(n) - 1 <= n / d <= abs_int(n),
{
    vstd::arithmetic::div_mod::lemma_fundamental_div_mod(n, d);
    vstd::arithmetic::div_mod::lemma_mod_bound(n, d);
    lemma_div_in_range_helper(n, d, n / d, n % d);
}

proof fn lemma_div_in_range_helper(n: int, d: int, q: int, r: int) by (nonlinear_arith)
    requires
        d >= 1,
        n == d * q + r,
        0 <= r < d,
    ensures
        -abs_int(n) - 1 <= q <= abs_int(n),
{
}

/// A non-negative value divided by `d` stays below `m` whenever it is below
/// `d * m`.
pub proof fn lemma_div_below(n: int, d: int, m: int)
    requires
        d >= 1,
        0 <= n,
        n < d * m,
    ensures
        n / d < m,
{
    vstd::arithmetic::div_mod::lemma_fundamental_div_mod(n, d);
    vstd::arithmetic::div_mod::lemma_mod_bound(n, d);
    lemma_div_below_helper(n, d, m, n / d, n % d);
}

proof fn lemma_div_below_helper(n: int, d: int, m: int, q: int, r: int) by (nonlinear_arith)
    requires
        d >= 1,
        0 <= n,
        n < d * m,
        n == d * q + r,
        0 <= r < d,
    ensures
        q < m,
{
}

/// Absolute value, as a spec-level integer.
pub open spec fn abs_int(n: int) -> int {
    if n >= 0 {
        n
    } else {
        -n
    }
}

/// Absolute value of a 128-bit quantity.
pub fn abs128(n: i128) -> (r: i128)
    requires
        n > i128::MIN,
    ensures
        r == abs_int(n as int),
{
    if n >= 0 {
        n
    } else {
        -n
    }
}

} // verus!
